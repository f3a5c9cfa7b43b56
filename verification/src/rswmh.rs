//! Weighted MinHash by plain rejection sampling: one signature per seed.
//!
//! Every seed scans its own sequence of candidate positions on the line that the
//! capacities partition, and the first green one names the seed's signature. Two
//! vectors share the signature of a seed with the probability of their weighted
//! Jaccard similarity, provided that no weight exceeds its coordinate's capacity.
//! A seed may need any number of attempts; the caller may set a ceiling, and a
//! scan that reaches it, or that can accept nothing at all, ends in an error.

use crate::hash_utils::{
    draw_words64, is_table, lemma_mt_after_add, mt_after, mt_state, mt_words64, tab64_at,
    tab64_hash, tab64_table, table64_at,
};
use crate::keys::Weighted;
use crate::rejsmp::{clamped, degenerate, dense, dense_weights, RedGreenIndex};
use mt19937::MT19937;
use tab_hash::Tab64Simple;
use vstd::prelude::*;

verus! {

/// Why a scan has no signatures to give.
#[derive(Debug, Clone, Copy, PartialEq, Eq)]
pub enum RsError {
    /// Nothing can be accepted: the line is empty or the vector has no weight.
    NoMass,
    /// This seed found no green position within the ceiling on attempts.
    Exhausted { slot: usize },
    /// The scan has not reached this seed yet.
    Unfinished { slot: usize },
}

/// The engine: a partition of the line by capacities, the hashers that draw
/// positions and name accepted positions, and one seed per signature.
pub struct RsWmh {
    index: RedGreenIndex,
    t_u: Tab64Simple,
    t_id: Tab64Simple,
    seeds: Vec<u64>,
}

/// The engine as a value.
pub struct RsTables {
    /// The boundaries of the partition of the line.
    pub index: Seq<u64>,
    /// Table of the hasher that draws candidate positions.
    pub positions: Seq<Seq<u64>>,
    /// Table of the hasher that names accepted positions.
    pub identities: Seq<Seq<u64>>,
    /// The seeds, one per signature.
    pub seeds: Seq<u64>,
}

/// The sketching of one vector in progress: which attempt of which seed is
/// next, and the signatures of the seeds before it.
pub struct RsScan<'a> {
    rs: &'a RsWmh,
    weights: Vec<u64>,
    ceiling: u64,
    slot: usize,
    attempt: u64,
    ids: Vec<u64>,
    failed: Option<RsError>,
}

/// A scan as a value.
pub struct RsScanState {
    /// The engine.
    pub tables: RsTables,
    /// The vector being scanned, written out over all coordinates.
    pub weights: Seq<u64>,
    /// The number of attempts that each seed may make.
    pub ceiling: u64,
    /// The seed whose attempt is next.
    pub slot: nat,
    /// The index, from one, of the attempt that is next.
    pub attempt: u64,
    /// The signatures of the seeds before the cursor.
    pub ids: Seq<u64>,
    /// Why the scan has stopped before its end, if it has.
    pub failed: Option<RsError>,
}

/// The key under which attempt `t` of the seed `seed` draws its position.
pub open spec fn seed_key(seed: u64, t: u64) -> u64 {
    seed ^ t
}

/// The ceiling on attempts per seed that a request stands for: the requested
/// number, or the largest number if none is named.
pub open spec fn attempt_ceiling(max_attempts: Option<u64>) -> u64 {
    match max_attempts {
        Some(v) => v,
        None => u64::MAX,
    }
}

/// The signature that a seed takes when it tries the attempts `from..=ceiling`
/// in turn and `green_at` tells of each attempt whether it is green, and at which
/// position: the hash of the first green position, or nothing.
pub open spec fn first_signature(
    id_table: Seq<Seq<u64>>,
    green_at: spec_fn(u64) -> Option<u64>,
    ceiling: u64,
    from: u64,
) -> Option<u64>
    decreases ceiling - from,
{
    if from > ceiling {
        None
    } else if green_at(from) is Some {
        Some(tab64_hash(id_table, green_at(from).unwrap()))
    } else if from == ceiling {
        None
    } else {
        first_signature(id_table, green_at, ceiling, (from + 1) as u64)
    }
}

impl RsScanState {
    /// The scan with which the sketching of the vector with dense weights
    /// `weights` begins. It stands at the first attempt of the first seed. It has
    /// failed at once where nothing can be accepted, because the line is empty or
    /// the vector has no weight, and where no attempt is allowed.
    pub open spec fn initial(tables: RsTables, weights: Seq<u64>, ceiling: u64) -> RsScanState {
        RsScanState {
            tables,
            weights,
            ceiling,
            slot: 0,
            attempt: 1,
            ids: Seq::empty(),
            failed: if tables.seeds.len() == 0 {
                None
            } else if degenerate(tables.index.last(), weights) {
                Some(RsError::NoMass)
            } else if ceiling == 0 {
                Some(RsError::Exhausted { slot: 0 })
            } else {
                None
            },
        }
    }

    /// An attempt is due.
    pub open spec fn active(self) -> bool {
        self.failed is None && self.slot < self.tables.seeds.len()
    }

    /// The scan has one weight per coordinate, the cursor lies within the
    /// seeds, every seed before it has a signature, a failure names the cursor's
    /// seed, and while an attempt is due it lies within the ceiling and the line
    /// is not empty.
    pub open spec fn valid(self) -> bool {
        &&& self.weights.len() == self.tables.index.len() - 1
        &&& self.ids.len() == self.slot <= self.tables.seeds.len() <= usize::MAX
        &&& self.active() ==> 1 <= self.attempt <= self.ceiling && self.tables.index.last() > 0
        &&& self.failed matches Some(e) ==> self.slot < self.tables.seeds.len() && (e is NoMass || e == (
            RsError::Exhausted { slot: self.slot as usize }))
    }

    /// The hash from which the next candidate position is derived, if an
    /// attempt is due.
    pub open spec fn next_draw(self) -> Option<u64> {
        if self.active() {
            Some(tab64_hash(self.tables.positions, seed_key(self.tables.seeds[self.slot as int], self.attempt)))
        } else {
            None
        }
    }

    /// The scan after the outcome `green` of its next attempt has been recorded.
    /// A green position gives the seed its signature, the hash of the position's
    /// key; a red one moves on to the next attempt, and fails the scan after the
    /// last that the ceiling allows.
    pub open spec fn report(self, green: Option<u64>) -> RsScanState {
        match green {
            Some(r) => RsScanState {
                slot: self.slot + 1,
                attempt: 1,
                ids: self.ids.push(tab64_hash(self.tables.identities, r)),
                ..self
            },
            None => if self.attempt < self.ceiling {
                RsScanState { attempt: (self.attempt + 1) as u64, ..self }
            } else {
                RsScanState { failed: Some(RsError::Exhausted { slot: self.slot as usize }), ..self }
            },
        }
    }

    /// The scan after `count` attempts have been recorded as `green_at` tells;
    /// a scan with no attempt due stays as it is.
    pub open spec fn steps(self, green_at: spec_fn(int, u64) -> Option<u64>, count: nat) -> RsScanState
        decreases count,
    {
        if count == 0 || !self.active() {
            self
        } else {
            self.report(green_at(self.slot as int, self.attempt)).steps(green_at, (count - 1) as nat)
        }
    }

    /// What the scan has to give as it stands: the signatures if every seed has
    /// one, else the reason why not.
    pub open spec fn outcome(self) -> Result<Seq<u64>, RsError> {
        match self.failed {
            Some(e) => Err(e),
            None => if self.slot < self.tables.seeds.len() {
                Err(RsError::Unfinished { slot: self.slot as usize })
            } else {
                Ok(self.ids)
            },
        }
    }

    /// The scan has so far recorded what `green_at` tells of every attempt of
    /// every seed: each seed before the cursor has the signature of its first
    /// green attempt, the attempts of the cursor's seed before the cursor were
    /// red, and a seed is given up only if none of its attempts is green.
    pub open spec fn on_course(self, green_at: spec_fn(int, u64) -> Option<u64>) -> bool {
        &&& forall|j: int| 0 <= j < self.slot && j < self.ids.len() ==> Some(#[trigger] self.ids[j])
            == first_signature(self.tables.identities, |t: u64| green_at(j, t), self.ceiling, 1)
        &&& self.active() ==> first_signature(
            self.tables.identities,
            |t: u64| green_at(self.slot as int, t),
            self.ceiling,
            1,
        ) == first_signature(
            self.tables.identities,
            |t: u64| green_at(self.slot as int, t),
            self.ceiling,
            self.attempt,
        )
        &&& self.failed matches Some(RsError::Exhausted { slot }) ==> first_signature(
            self.tables.identities,
            |t: u64| green_at(self.slot as int, t),
            self.ceiling,
            1,
        ) is None
    }
}

impl View for RsWmh {
    type V = RsTables;

    closed spec fn view(&self) -> RsTables {
        RsTables {
            index: self.index@,
            positions: tab64_table(self.t_u),
            identities: tab64_table(self.t_id),
            seeds: self.seeds@,
        }
    }
}

impl<'a> View for RsScan<'a> {
    type V = RsScanState;

    closed spec fn view(&self) -> RsScanState {
        RsScanState {
            tables: self.rs@,
            weights: self.weights@,
            ceiling: self.ceiling,
            slot: self.slot as nat,
            attempt: self.attempt,
            ids: self.ids@,
            failed: self.failed,
        }
    }
}

impl RsWmh {
    /// The engine over `index` that draws positions with `t_u`, names accepted
    /// positions with `t_id` and gives one signature for each of `seeds`.
    pub fn from_parts(index: RedGreenIndex, t_u: Tab64Simple, t_id: Tab64Simple, seeds: Vec<u64>) -> (rs: RsWmh)
        ensures
            rs@ == (RsTables {
                index: index@,
                positions: tab64_table(t_u),
                identities: tab64_table(t_id),
                seeds: seeds@,
            }),
    {
        RsWmh { index, t_u, t_id, seeds }
    }

    /// The engine over `index` whose hashers of positions and of identities have
    /// the tables made of the first and of the second 2048 words of `words64`,
    /// and that gives one signature for each of `seeds`.
    pub fn from_words(index: RedGreenIndex, words64: &Vec<u64>, seeds: Vec<u64>) -> (rs: RsWmh)
        requires
            words64@.len() == 4096,
        ensures
            rs@ == (RsTables {
                index: index@,
                positions: table64_at(words64@, 0),
                identities: table64_at(words64@, 2048),
                seeds: seeds@,
            }),
            is_table(rs@.positions, 8),
            is_table(rs@.identities, 8),
    {
        let t_u = tab64_at(words64, 0);
        let t_id = tab64_at(words64, 2048);
        RsWmh::from_parts(index, t_u, t_id, seeds)
    }

    /// Builds an engine of `k` signatures over `index` from the next words of
    /// `rng`, all of 64 bits: 4096 for the hashers of positions and of
    /// identities, then the `k` seeds.
    pub fn new_mt(rng: &mut MT19937, index: RedGreenIndex, k: u64) -> (rs: RsWmh)
        requires
            k <= usize::MAX,
        ensures
            rs@ == (RsTables {
                index: index@,
                positions: table64_at(mt_words64(mt_state(*old(rng)), 4096), 0),
                identities: table64_at(mt_words64(mt_state(*old(rng)), 4096), 2048),
                seeds: mt_words64(mt_after(mt_state(*old(rng)), 8192), k as nat),
            }),
            rs@.seeds.len() == k,
            is_table(rs@.positions, 8),
            is_table(rs@.identities, 8),
            mt_state(*final(rng)) == mt_after(mt_state(*old(rng)), (8192 + 2 * k) as nat),
    {
        let ghost begin = mt_state(*rng);
        let words64 = draw_words64(rng, 4096);
        let seeds = draw_words64(rng, k as usize);
        proof {
            lemma_mt_after_add(begin, 8192, (2 * k) as nat);
        }
        RsWmh::from_words(index, &words64, seeds)
    }

    /// The partition of the line.
    pub fn index(&self) -> (index: &RedGreenIndex)
        ensures
            index@ == self@.index,
    {
        &self.index
    }

    /// The number of signatures.
    pub fn k(&self) -> (k: usize)
        ensures
            k == self@.seeds.len(),
    {
        self.seeds.len()
    }

    /// Begins the sketching of `x` with at most `max_attempts` attempts per seed,
    /// or without a ceiling if none is named. Where nothing can be accepted,
    /// because the line is empty or `x` has no weight, the scan fails at once; so
    /// it does where no attempt is allowed.
    pub fn sketch_ids<'a>(&'a self, x: &[Weighted], max_attempts: Option<u64>) -> (scan: RsScan<'a>)
        requires
            forall|i: int| 0 <= i < x@.len() ==> (#[trigger] x@[i]).0 < self@.index.len() - 1,
        ensures
            scan@ == RsScanState::initial(self@, dense(self@.index, x@), attempt_ceiling(max_attempts)),
            scan@.valid(),
    {
        let ceiling: u64 = match max_attempts {
            Some(v) => v,
            None => u64::MAX,
        };
        let weights = dense_weights(self.index.d(), x);
        let mut massless = true;
        let mut c: usize = 0;
        while c < weights.len()
            invariant
                c <= weights@.len(),
                massless <==> forall|a: int| 0 <= a < c ==> #[trigger] weights@[a] == 0,
            decreases weights@.len() - c,
        {
            if weights[c] != 0 {
                massless = false;
            }
            c += 1;
        }
        let failed = if self.seeds.len() == 0 {
            None
        } else if self.index.m_total() == 0 || massless {
            Some(RsError::NoMass)
        } else if ceiling == 0 {
            Some(RsError::Exhausted { slot: 0 })
        } else {
            None
        };
        assert(weights@ =~= dense(self@.index, x@));
        RsScan { rs: self, weights, ceiling, slot: 0, attempt: 1, ids: Vec::new(), failed }
    }
}

impl<'a> RsScan<'a> {
    #[verifier::type_invariant]
    spec fn wf(&self) -> bool {
        self@.valid()
    }

    /// The hash from which the next candidate position is derived, or nothing
    /// when no attempt is due. Divided by `2^64 - 1`, clamped below one and scaled
    /// by `M`, it is the position to test.
    pub fn next_draw(&self) -> (draw: Option<u64>)
        ensures
            draw == self@.next_draw(),
    {
        if self.failed.is_none() && self.slot < self.rs.seeds.len() {
            Some(self.rs.t_u.hash(self.rs.seeds[self.slot] ^ self.attempt))
        } else {
            None
        }
    }

    /// The coordinate whose interval covers the position with key `r`: the key
    /// of the interval's left boundary and the key of the weight that the
    /// scanned vector has there. The position is green when it lies within the
    /// first `x_i` units of the interval, that is strictly below the sum of the
    /// two; at a coordinate without weight no position is green. A position at or
    /// beyond `M` is looked up as the largest key below `M`.
    pub fn covering(&self, r: u64) -> (res: (usize, u64, u64))
        requires
            self@.active(),
        ensures
            res.0 < self@.weights.len(),
            res.1 == self@.tables.index[res.0 as int],
            res.2 == self@.weights[res.0 as int],
            self@.tables.index[res.0 as int] <= clamped(self@.tables.index, r) < self@.tables.index[res.0 + 1],
    {
        proof {
            use_type_invariant(self);
        }
        let (i, base) = self.rs.index.comp_of(r);
        (i, base, self.weights[i])
    }

    /// Records the outcome of the attempt that `next_draw` announced: the key of
    /// the position if it was green, nothing if it was red.
    pub fn report(self, green: Option<u64>) -> (next: RsScan<'a>)
        requires
            self@.active(),
        ensures
            next@ == self@.report(green),
            next@.valid(),
    {
        proof {
            use_type_invariant(&self);
        }
        let RsScan { rs, weights, ceiling, slot, attempt, mut ids, failed } = self;
        match green {
            Some(r) => {
                ids.push(rs.t_id.hash(r));
                RsScan { rs, weights, ceiling, slot: slot + 1, attempt: 1, ids, failed }
            },
            None => {
                if attempt < ceiling {
                    RsScan { rs, weights, ceiling, slot, attempt: attempt + 1, ids, failed }
                } else {
                    RsScan { rs, weights, ceiling, slot, attempt, ids, failed: Some(RsError::Exhausted { slot }) }
                }
            },
        }
    }

    /// The signatures of the scanned vector, one per seed: for each seed the hash
    /// of the key of its first green position. A scan that failed, or that has
    /// not reached every seed, gives the reason instead.
    pub fn finish(self) -> (res: Result<Vec<u64>, RsError>)
        ensures
            match res {
                Ok(ids) => self@.outcome() == Ok::<Seq<u64>, RsError>(ids@) && ids@.len()
                    == self@.tables.seeds.len(),
                Err(e) => self@.outcome() == Err::<Seq<u64>, RsError>(e),
            },
    {
        proof {
            use_type_invariant(&self);
        }
        match self.failed {
            Some(e) => Err(e),
            None => {
                if self.slot < self.rs.seeds.len() {
                    Err(RsError::Unfinished { slot: self.slot })
                } else {
                    Ok(self.ids)
                }
            },
        }
    }
}

/// A scan begins valid, provided that it has one weight per coordinate and no
/// more seeds than the machine can count; and it begins on course.
pub proof fn lemma_rs_initial(
    tables: RsTables,
    weights: Seq<u64>,
    ceiling: u64,
    green_at: spec_fn(int, u64) -> Option<u64>,
)
    requires
        weights.len() == tables.index.len() - 1,
        tables.seeds.len() <= usize::MAX,
    ensures
        RsScanState::initial(tables, weights, ceiling).valid(),
        RsScanState::initial(tables, weights, ceiling).on_course(green_at),
{
}

/// Recording an outcome keeps a scan valid.
pub proof fn lemma_rs_report_valid(scan: RsScanState, green: Option<u64>)
    requires
        scan.valid(),
        scan.active(),
    ensures
        scan.report(green).valid(),
{
}

/// Recording what `green_at` tells of the next attempt keeps a scan on course.
pub proof fn lemma_rs_report_on_course(scan: RsScanState, green_at: spec_fn(int, u64) -> Option<u64>)
    requires
        scan.valid(),
        scan.active(),
        scan.on_course(green_at),
    ensures
        scan.report(green_at(scan.slot as int, scan.attempt)).on_course(green_at),
{
    let j = scan.slot as int;
    let id_table = scan.tables.identities;
    let next = scan.report(green_at(j, scan.attempt));
    let here = |t: u64| green_at(j, t);
    assert(here(scan.attempt) == green_at(j, scan.attempt));
    if green_at(j, scan.attempt) is Some {
        assert(Some(next.ids[j]) == first_signature(id_table, here, scan.ceiling, scan.attempt));
        assert forall|a: int| 0 <= a < next.slot && a < next.ids.len() implies Some(#[trigger] next.ids[a])
            == first_signature(id_table, |t: u64| green_at(a, t), next.ceiling, 1) by {
            if a < j {
                assert(next.ids[a] == scan.ids[a]);
            }
        }
    }
}

/// A scan on course that has reached its end holds, for every seed, the
/// signature of the first green attempt; one that gave a seed up found no green
/// attempt within the ceiling.
pub proof fn lemma_rs_outcome_on_course(scan: RsScanState, green_at: spec_fn(int, u64) -> Option<u64>)
    requires
        scan.valid(),
        scan.on_course(green_at),
    ensures
        scan.outcome() matches Ok(ids) ==> ids.len() == scan.tables.seeds.len() && forall|j: int|
            0 <= j < ids.len() ==> Some(#[trigger] ids[j]) == first_signature(
                scan.tables.identities,
                |t: u64| green_at(j, t),
                scan.ceiling,
                1,
            ),
        scan.outcome() matches Err(RsError::Exhausted { slot }) ==> first_signature(
            scan.tables.identities,
            |t: u64| green_at(slot as int, t),
            scan.ceiling,
            1,
        ) is None,
{
}

/// Any number of attempts recorded as `green_at` tells keeps a scan valid and
/// on course.
pub proof fn lemma_rs_steps_on_course(scan: RsScanState, green_at: spec_fn(int, u64) -> Option<u64>, count: nat)
    requires
        scan.valid(),
        scan.on_course(green_at),
    ensures
        scan.steps(green_at, count).valid(),
        scan.steps(green_at, count).on_course(green_at),
        scan.steps(green_at, count).tables == scan.tables,
        scan.steps(green_at, count).ceiling == scan.ceiling,
    decreases count,
{
    if count > 0 && scan.active() {
        lemma_rs_report_valid(scan, green_at(scan.slot as int, scan.attempt));
        lemma_rs_report_on_course(scan, green_at);
        lemma_rs_steps_on_course(
            scan.report(green_at(scan.slot as int, scan.attempt)),
            green_at,
            (count - 1) as nat,
        );
    }
}

/// The scan signs by first green attempts: begun on a vector and answered as
/// `green_at` tells at every attempt, it gives, once every seed has a signature,
/// for each seed the hash of the position of its first green attempt.
pub proof fn lemma_scan_signs_by_first_green(
    tables: RsTables,
    weights: Seq<u64>,
    ceiling: u64,
    green_at: spec_fn(int, u64) -> Option<u64>,
    count: nat,
)
    requires
        weights.len() == tables.index.len() - 1,
        tables.seeds.len() <= usize::MAX,
        RsScanState::initial(tables, weights, ceiling).steps(green_at, count).outcome() is Ok,
    ensures
        RsScanState::initial(tables, weights, ceiling).steps(green_at, count).outcome() matches Ok(ids)
            && ids.len() == tables.seeds.len() && forall|j: int|
            0 <= j < ids.len() ==> Some(#[trigger] ids[j]) == first_signature(
                tables.identities,
                |t: u64| green_at(j, t),
                ceiling,
                1,
            ),
{
    let begin = RsScanState::initial(tables, weights, ceiling);
    lemma_rs_initial(tables, weights, ceiling, green_at);
    lemma_rs_steps_on_course(begin, green_at, count);
    lemma_rs_outcome_on_course(begin.steps(green_at, count), green_at);
}

} // verus!
