//! Weighted MinHash by rejection sampling with early stop and densification.
//!
//! A line `[0, M)` is cut into one interval per coordinate, as long as that
//! coordinate's declared capacity. A candidate position on the line is green for a
//! vector when it falls within the first `x_i` units of the interval of the
//! coordinate `i` that covers it. Every slot of the sketch scans a bounded sequence
//! of candidate positions and keeps the first green one; slots that found none
//! borrow from a filled slot.

use crate::hash_utils::{
    draw_words32, draw_words64, is_table, lemma_mt_after_add, mt_after, mt_state,
    mt_words32, mt_words64, tab32_at, tab32_hash, tab32_table, tab64_at, tab64_hash, tab64_table, table32_at,
    table64_at,
};
use crate::keys::{ascending_ids, is_key, Weighted, INFINITY_KEY};
use crate::similarity::{collisions, lemma_self_collisions};
use mt19937::MT19937;
use tab_hash::{Tab32Simple, Tab64Simple};
use vstd::prelude::*;

verus! {

/// `cum` is a list of interval boundaries: it starts at zero, never decreases and
/// ends at a key.
pub open spec fn is_boundaries(cum: Seq<u64>) -> bool {
    &&& cum.len() >= 1
    &&& cum[0] == 0
    &&& forall|i: int, j: int| 0 <= i <= j < cum.len() ==> cum[i] <= cum[j]
    &&& is_key(cum.last())
}

/// The position that is looked up for `r` on the line with boundaries `cum`:
/// `r` itself when it lies below `M`, else the largest key below `M`.
pub open spec fn clamped(cum: Seq<u64>, r: u64) -> int {
    if r >= cum.last() {
        cum.last() - 1
    } else {
        r as int
    }
}

/// The partition of `[0, M)` into one interval per coordinate, held as the keys
/// of the boundaries between them.
pub struct RedGreenIndex {
    cum: Vec<u64>,
    d: usize,
    m_total: u64,
}

impl View for RedGreenIndex {
    type V = Seq<u64>;

    /// The boundaries: entry `i` is where coordinate `i` begins, the last entry is `M`.
    closed spec fn view(&self) -> Seq<u64> {
        self.cum@
    }
}

impl RedGreenIndex {
    #[verifier::type_invariant]
    spec fn wf(&self) -> bool {
        &&& is_boundaries(self.cum@)
        &&& self.d + 1 == self.cum@.len()
        &&& self.m_total == self.cum@.last()
    }

    /// Number of coordinates.
    pub open spec fn spec_d(&self) -> int {
        self@.len() - 1
    }

    /// Key of the total capacity `M`.
    pub open spec fn spec_m_total(&self) -> u64 {
        self@.last()
    }

    /// Builds the index from the running totals of the capacities: `cum[0]` is
    /// zero and `cum[i + 1]` is `cum[i]` plus the capacity of coordinate `i`.
    /// Lists that are no boundaries are refused.
    pub fn from_cumulative(cum: Vec<u64>) -> (index: Option<RedGreenIndex>)
        ensures
            index is Some <==> is_boundaries(cum@),
            index matches Some(idx) ==> idx@ == cum@,
    {
        let n = cum.len();
        if n == 0 || cum[0] != 0 || cum[n - 1] > INFINITY_KEY {
            return None;
        }
        let mut i: usize = 1;
        while i < n
            invariant
                1 <= i <= n,
                n == cum@.len(),
                forall|a: int, b: int| 0 <= a <= b < i ==> cum@[a] <= cum@[b],
            decreases n - i,
        {
            if cum[i] < cum[i - 1] {
                return None;
            }
            i += 1;
        }
        let m_total = cum[n - 1];
        Some(RedGreenIndex { cum, d: n - 1, m_total })
    }

    /// Number of coordinates.
    pub fn d(&self) -> (d: usize)
        ensures
            d == self.spec_d(),
    {
        proof {
            use_type_invariant(self);
        }
        self.d
    }

    /// Key of the total capacity `M`.
    pub fn m_total(&self) -> (m: u64)
        ensures
            m == self.spec_m_total(),
    {
        proof {
            use_type_invariant(self);
        }
        self.m_total
    }

    /// The coordinate whose interval covers `r`, with the key of the interval's
    /// left boundary. An `r` at or beyond `M` is first moved to the largest key
    /// below `M`.
    pub fn comp_of(&self, r: u64) -> (res: (usize, u64))
        requires
            self.spec_m_total() > 0,
        ensures
            res.0 < self.spec_d(),
            res.1 == self@[res.0 as int],
            self@[res.0 as int] <= clamped(self@, r) < self@[res.0 + 1],
    {
        proof {
            use_type_invariant(self);
        }
        let r = if r >= self.m_total {
            self.m_total - 1
        } else {
            r
        };
        let mut lo: usize = 1;
        let mut hi: usize = self.cum.len();
        assert(self.cum@[0] <= r);
        while lo < hi
            invariant
                1 <= lo <= hi <= self.cum@.len(),
                is_boundaries(self.cum@),
                r < self.cum@.last(),
                self.cum@[lo - 1] <= r,
                hi < self.cum@.len() ==> self.cum@[hi as int] > r,
            decreases hi - lo,
        {
            let mid = lo + (hi - lo) / 2;
            if self.cum[mid] > r {
                hi = mid;
            } else {
                lo = mid + 1;
            }
        }
        let i = lo - 1;
        (i, self.cum[i])
    }
}


/// The weight that the entries of `x` give coordinate `c`: that of the last entry
/// for `c` with a positive weight, and zero if there is none.
pub open spec fn dense_weight(x: Seq<Weighted>, c: int) -> u64
    decreases x.len(),
{
    if x.len() == 0 {
        0
    } else if x.last().0 == c && x.last().1 > 0 {
        x.last().1
    } else {
        dense_weight(x.drop_last(), c)
    }
}

/// A vector whose ids ascend gives every coordinate that it lists the weight
/// listed, and every other coordinate the weight zero.
pub proof fn lemma_dense_weight(x: Seq<Weighted>, c: int)
    requires
        ascending_ids(x),
    ensures
        forall|i: int| 0 <= i < x.len() && (#[trigger] x[i]).0 == c ==> dense_weight(x, c) == x[i].1,
        (forall|i: int| 0 <= i < x.len() ==> (#[trigger] x[i]).0 != c) ==> dense_weight(x, c) == 0,
    decreases x.len(),
{
    if x.len() > 0 {
        let head = x.drop_last();
        assert(ascending_ids(head)) by {
            assert forall|i: int, j: int| 0 <= i < j < head.len() implies (#[trigger] head[i]).0 < (
            #[trigger] head[j]).0 by {
                assert(head[i] == x[i] && head[j] == x[j]);
            }
        }
        lemma_dense_weight(head, c);
        assert forall|i: int| 0 <= i < x.len() && (#[trigger] x[i]).0 == c implies dense_weight(x, c) == x[i].1 by {
            if i < x.len() - 1 {
                assert(head[i] == x[i]);
                assert(x[i].0 < x[x.len() - 1].0);
            } else if x[i].1 == 0 {
                assert forall|e: int| 0 <= e < head.len() implies (#[trigger] head[e]).0 != c by {
                    assert(head[e] == x[e]);
                    assert(x[e].0 < x[x.len() - 1].0);
                }
            }
        }
        if forall|i: int| 0 <= i < x.len() ==> (#[trigger] x[i]).0 != c {
            assert(x[x.len() - 1].0 != c);
            assert forall|e: int| 0 <= e < head.len() implies (#[trigger] head[e]).0 != c by {
                assert(head[e] == x[e]);
            }
        }
    }
}

/// The vector `x` written out over coordinates `0..d`.
pub fn dense_weights(d: usize, x: &[Weighted]) -> (w: Vec<u64>)
    requires
        forall|i: int| 0 <= i < x@.len() ==> (#[trigger] x@[i]).0 < d,
    ensures
        w@.len() == d,
        forall|c: int| 0 <= c < d ==> #[trigger] w@[c] == dense_weight(x@, c),
{
    let mut w: Vec<u64> = Vec::new();
    let mut c: usize = 0;
    while c < d
        invariant
            c <= d,
            w@.len() == c,
            forall|a: int| 0 <= a < c ==> #[trigger] w@[a] == 0,
        decreases d - c,
    {
        w.push(0);
        c += 1;
    }
    let mut n: usize = 0;
    while n < x.len()
        invariant
            n <= x@.len(),
            w@.len() == d,
            forall|i: int| 0 <= i < x@.len() ==> (#[trigger] x@[i]).0 < d,
            forall|a: int| 0 <= a < d ==> #[trigger] w@[a] == dense_weight(x@.take(n as int), a),
        decreases x@.len() - n,
    {
        let (i, xi) = x[n];
        assert(x@.take(n + 1).drop_last() == x@.take(n as int));
        if xi > 0 {
            w.set(i as usize, xi);
        }
        n += 1;
    }
    assert(x@.take(x@.len() as int) == x@);
    w
}

/// What one slot kept from its scan: the identity of the accepted position and
/// the index of the attempt that found it.
pub type Accepted = Option<(u64, u32)>;

/// One slot of a finished sketch: an identity with the attempt index that ranks
/// it, or a fallback identity, whose rank is infinite.
pub type Slot = (u64, Option<u32>);

/// Attempts per slot when the caller names no limit.
pub const DEFAULT_ATTEMPTS: u32 = 1024;

/// The limit on attempts per slot that a request stands for: the requested
/// number, or the largest that an attempt index can be if it asks for more, or
/// the default if it names none.
pub open spec fn attempts_per_slot(max_attempts: Option<u64>) -> u32 {
    match max_attempts {
        Some(v) => if v > u32::MAX {
            u32::MAX
        } else {
            v as u32
        },
        None => DEFAULT_ATTEMPTS,
    }
}

/// The key under which attempt `t` of slot `j` draws its position.
pub open spec fn attempt_key(j: int, t: u32) -> u64 {
    ((j as u64) << 32) ^ (t as u64)
}

/// The identity that slot `j` carries in the fallback sketch.
pub open spec fn fallback_id(rot: Seq<Seq<u32>>, j: int) -> u64 {
    ((tab32_hash(rot, j as u32) as u64) << 32) | (j as u64)
}

/// Where the walk of empty slot `j` begins among `k` slots: at a hashed offset
/// in `1..=k-1` past `j`, wrapping around.
pub open spec fn rotation_start(rot: Seq<Seq<u32>>, k: int, j: int) -> int {
    let span = if k > 1 { k - 1 } else { 1 };
    (j + (tab32_hash(rot, j as u32) as int) % span + 1) % k
}

/// The slot at which a walk from `pos` stops: the first filled one in scan order,
/// wrapping around, within `left` probes.
pub open spec fn walk(slots: Seq<Accepted>, pos: int, left: nat) -> int
    decreases left,
{
    if left == 0 || slots[pos] is Some {
        pos
    } else {
        walk(slots, if pos + 1 == slots.len() { 0 } else { pos + 1 }, (left - 1) as nat)
    }
}

/// The slots after those below `upto` have been densified in turn: each empty
/// one takes what the slot holds at which its walk stops.
pub open spec fn densified(slots: Seq<Accepted>, rot: Seq<Seq<u32>>, upto: nat) -> Seq<Accepted>
    decreases upto,
{
    if upto == 0 {
        slots
    } else {
        let prev = densified(slots, rot, (upto - 1) as nat);
        let j = upto - 1;
        if prev[j] is Some {
            prev
        } else {
            prev.update(j, prev[walk(prev, rotation_start(rot, slots.len() as int, j), slots.len())])
        }
    }
}

/// No slot accepted anything.
pub open spec fn all_empty(slots: Seq<Accepted>) -> bool {
    forall|j: int| 0 <= j < slots.len() ==> (#[trigger] slots[j]) is None
}

/// The sketch that a table of scan results stands for. If no slot accepted
/// anything it is the fallback sketch; otherwise every slot carries its own
/// accepted identity and attempt, or those of the slot it borrowed from.
pub open spec fn sketch_of(slots: Seq<Accepted>, rot: Seq<Seq<u32>>) -> Seq<Slot> {
    if all_empty(slots) {
        Seq::new(slots.len(), |j: int| (fallback_id(rot, j), None::<u32>))
    } else {
        Seq::new(
            slots.len(),
            |j: int|
                {
                    let a = densified(slots, rot, slots.len())[j];
                    (a.unwrap().0, Some(a.unwrap().1))
                },
        )
    }
}

/// A walk that is given enough probes to reach a filled slot stops at a filled
/// slot.
pub proof fn lemma_walk_finds(slots: Seq<Accepted>, pos: int, left: nat, filled: int)
    requires
        0 <= pos < slots.len(),
        0 <= filled < slots.len(),
        slots[filled] is Some,
        left > (filled - pos) % (slots.len() as int),
    ensures
        0 <= walk(slots, pos, left) < slots.len(),
        slots[walk(slots, pos, left)] is Some,
    decreases left,
{
    let k = slots.len() as int;
    if slots[pos] is Some {
    } else {
        let next = if pos + 1 == k { 0 } else { pos + 1 };
        assert(pos != filled);
        assert((filled - next) % k == (filled - pos) % k - 1) by {
            if filled > pos {
                assert((filled - pos) % k == filled - pos) by (nonlinear_arith)
                    requires 0 < filled - pos < k;
                assert((filled - next) % k == filled - next) by (nonlinear_arith)
                    requires 0 <= filled - next < k;
            } else {
                assert((filled - pos) % k == filled - pos + k) by (nonlinear_arith)
                    requires -k < filled - pos < 0;
                if pos + 1 == k {
                    assert((filled - next) % k == filled) by (nonlinear_arith)
                        requires next == 0, 0 <= filled < k;
                } else {
                    assert((filled - next) % k == filled - next + k) by (nonlinear_arith)
                        requires -k < filled - next < 0;
                }
            }
        }
        lemma_walk_finds(slots, next, (left - 1) as nat, filled);
    }
}

/// Densifying keeps the number of slots and every filled slot, and fills the
/// slots it has passed if any slot was filled to begin with.
pub proof fn lemma_densified(slots: Seq<Accepted>, rot: Seq<Seq<u32>>, upto: nat)
    requires
        upto <= slots.len(),
    ensures
        densified(slots, rot, upto).len() == slots.len(),
        forall|j: int| 0 <= j < slots.len() && (#[trigger] slots[j]) is Some
            ==> densified(slots, rot, upto)[j] == slots[j],
        forall|j: int| upto <= j < slots.len() ==> #[trigger] densified(slots, rot, upto)[j] == slots[j],
        !all_empty(slots) ==> forall|j: int| 0 <= j < upto ==> (#[trigger] densified(slots, rot, upto)[j]) is Some,
        forall|j: int| 0 <= j < slots.len() && (#[trigger] densified(slots, rot, upto)[j]) is Some
            ==> exists|i: int| 0 <= i < slots.len() && #[trigger] slots[i] == densified(slots, rot, upto)[j],
    decreases upto,
{
    if upto > 0 {
        lemma_densified(slots, rot, (upto - 1) as nat);
        let prev = densified(slots, rot, (upto - 1) as nat);
        let j = upto - 1;
        let k = slots.len() as int;
        let start = rotation_start(rot, k, j);
        if prev[j] is None && !all_empty(slots) {
            let filled = choose|i: int| 0 <= i < slots.len() && (#[trigger] slots[i]) is Some;
            assert(prev[filled] is Some);
            assert((filled - start) % k < k) by (nonlinear_arith)
                requires k > 0;
            lemma_walk_finds(prev, start, slots.len(), filled);
        }
        if prev[j] is None {
            let stop = walk(prev, start, slots.len());
            let now = densified(slots, rot, upto);
            assert forall|a: int| 0 <= a < slots.len() && (#[trigger] now[a]) is Some implies exists|i: int|
                0 <= i < slots.len() && #[trigger] slots[i] == now[a] by {
                if a == j {
                    lemma_walk_in_range(prev, start, slots.len());
                    assert(prev[stop] is Some);
                    assert(now[a] == prev[stop]);
                } else {
                    assert(now[a] == prev[a]);
                }
            }
        }
    }
}

/// A walk that begins inside the table stays inside it.
pub proof fn lemma_walk_in_range(slots: Seq<Accepted>, pos: int, left: nat)
    requires
        0 <= pos < slots.len(),
    ensures
        0 <= walk(slots, pos, left) < slots.len(),
    decreases left,
{
    if left == 0 || slots[pos] is Some {
    } else {
        lemma_walk_in_range(slots, if pos + 1 == slots.len() { 0 } else { pos + 1 }, (left - 1) as nat);
    }
}


/// Every slot of `sketch` is populated from `slots`: if no slot accepted
/// anything, each carries its fallback identity at infinite rank; otherwise each
/// carries the identity and attempt that some slot accepted, its own if it
/// accepted one.
pub open spec fn populated(slots: Seq<Accepted>, rot: Seq<Seq<u32>>, sketch: Seq<Slot>) -> bool {
    &&& sketch.len() == slots.len()
    &&& all_empty(slots) ==> forall|j: int| 0 <= j < sketch.len() ==> #[trigger] sketch[j] == (
        fallback_id(rot, j),
        None::<u32>,
    )
    &&& !all_empty(slots) ==> forall|j: int| 0 <= j < sketch.len() ==> exists|i: int|
        0 <= i < slots.len() && #[trigger] slots[i] == Some((sketch[j].0, (#[trigger] sketch[j]).1.unwrap()))
            && sketch[j].1 is Some
    &&& forall|j: int| 0 <= j < sketch.len() && (#[trigger] slots[j]) is Some ==> sketch[j] == (
        slots[j].unwrap().0,
        Some(slots[j].unwrap().1),
    )
}

/// A sketch has as many slots as the scan, and every one of them is populated.
pub proof fn lemma_sketch_populated(slots: Seq<Accepted>, rot: Seq<Seq<u32>>)
    ensures
        populated(slots, rot, sketch_of(slots, rot)),
{
    let sketch = sketch_of(slots, rot);
    lemma_densified(slots, rot, slots.len());
    if !all_empty(slots) {
        let dense = densified(slots, rot, slots.len());
        assert forall|j: int| 0 <= j < sketch.len() implies exists|i: int|
            0 <= i < slots.len() && #[trigger] slots[i] == Some((sketch[j].0, (#[trigger] sketch[j]).1.unwrap()))
                && sketch[j].1 is Some by {
            assert(dense[j] is Some);
            let i = choose|i: int| 0 <= i < slots.len() && #[trigger] slots[i] == dense[j];
            assert(slots[i] == Some((sketch[j].0, sketch[j].1.unwrap())));
        }
    }
}

/// A sketch collides with a sketch of the same scan results in every slot.
pub proof fn lemma_sketch_repeatable(slots: Seq<Accepted>, rot: Seq<Seq<u32>>)
    ensures
        collisions(sketch_of(slots, rot), sketch_of(slots, rot)) == slots.len(),
{
    lemma_self_collisions(sketch_of(slots, rot));
    lemma_sketch_populated(slots, rot);
}

/// The engine: a partition of the line by capacities, the hashers that draw
/// positions, name accepted positions and rotate empty slots, and the number of
/// slots of a sketch.
pub struct ErsWmh {
    index: RedGreenIndex,
    t_u: Tab64Simple,
    t_id: Tab64Simple,
    t_rot: Tab32Simple,
    k: usize,
}

/// The engine as a value.
pub struct ErsTables {
    /// The boundaries of the partition of the line.
    pub index: Seq<u64>,
    /// Number of slots of a sketch.
    pub k: nat,
    /// Table of the hasher that draws candidate positions.
    pub positions: Seq<Seq<u64>>,
    /// Table of the hasher that names accepted positions.
    pub identities: Seq<Seq<u64>>,
    /// Table of the hasher that rotates empty slots and names fallback slots.
    pub rotation: Seq<Seq<u32>>,
}

/// The sketching of one vector in progress: which attempt of which slot is
/// next, and what the slots before it have accepted.
pub struct ErsScan<'a> {
    ers: &'a ErsWmh,
    weights: Vec<u64>,
    limit: u32,
    slot: usize,
    attempt: u32,
    buckets: Vec<Accepted>,
}

/// A scan as a value.
pub struct ScanState {
    /// The engine.
    pub tables: ErsTables,
    /// The vector being scanned, written out over all coordinates.
    pub weights: Seq<u64>,
    /// The number of attempts that each slot may make.
    pub limit: u32,
    /// The slot whose attempt is next.
    pub slot: nat,
    /// The index, from one, of the attempt that is next.
    pub attempt: u32,
    /// What each slot has accepted so far.
    pub accepted: Seq<Accepted>,
}

/// The vector gives the scan nothing to accept: the line is empty or every
/// weight is zero.
pub open spec fn degenerate(m_total: u64, weights: Seq<u64>) -> bool {
    m_total == 0 || forall|c: int| 0 <= c < weights.len() ==> #[trigger] weights[c] == 0
}

/// The vector `x` written out over the coordinates of the line with boundaries
/// `index`.
pub open spec fn dense(index: Seq<u64>, x: Seq<Weighted>) -> Seq<u64> {
    Seq::new((index.len() - 1) as nat, |c: int| dense_weight(x, c))
}

/// What a slot accepts when it tries the attempts `from..=limit` in turn and
/// `green_at` tells of each attempt whether it is green, and at which position:
/// the first green one, under the identity hashed from the position's key, or
/// nothing.
pub open spec fn first_green(
    id_table: Seq<Seq<u64>>,
    green_at: spec_fn(u32) -> Option<u64>,
    limit: u32,
    from: u32,
) -> Accepted
    decreases limit - from,
{
    if from > limit {
        None
    } else if green_at(from) is Some {
        Some((tab64_hash(id_table, green_at(from).unwrap()), from))
    } else if from == limit {
        None
    } else {
        first_green(id_table, green_at, limit, (from + 1) as u32)
    }
}

impl ScanState {
    /// The scan with which the sketching of the vector with dense weights
    /// `weights` begins. It stands at the first attempt of the first slot, or at
    /// its end where nothing could be accepted: on an empty line, for a vector
    /// without weight, or with no attempt allowed.
    pub open spec fn initial(tables: ErsTables, weights: Seq<u64>, limit: u32) -> ScanState {
        ScanState {
            tables,
            weights,
            limit,
            slot: if degenerate(tables.index.last(), weights) || limit == 0 {
                tables.k
            } else {
                0
            },
            attempt: 1,
            accepted: Seq::new(tables.k, |j: int| None::<(u64, u32)>),
        }
    }

    /// Every slot has been scanned.
    pub open spec fn finished(self) -> bool {
        self.slot >= self.accepted.len()
    }

    /// The scan has one slot per slot of the engine and one weight per
    /// coordinate, the cursor lies within the slots, no slot at or past the
    /// cursor has accepted anything, every slot that accepted did so at an
    /// attempt within the limit, and while an attempt is due it lies within the
    /// limit and the line is not empty.
    pub open spec fn valid(self) -> bool {
        &&& self.accepted.len() == self.tables.k
        &&& self.weights.len() == self.tables.index.len() - 1
        &&& self.slot <= self.accepted.len()
        &&& !self.finished() ==> 1 <= self.attempt <= self.limit && self.tables.index.last() > 0
        &&& forall|j: int| self.slot <= j < self.accepted.len() ==> (#[trigger] self.accepted[j]) is None
        &&& forall|j: int|
            0 <= j < self.accepted.len() ==> ((#[trigger] self.accepted[j]) matches Some(a) ==> 1 <= a.1
                <= self.limit)
    }

    /// The hash from which the next candidate position is derived, if an
    /// attempt is due.
    pub open spec fn next_draw(self) -> Option<u64> {
        if self.finished() {
            None
        } else {
            Some(tab64_hash(self.tables.positions, attempt_key(self.slot as int, self.attempt)))
        }
    }

    /// The scan after the outcome `green` of its next attempt has been recorded.
    /// A green position closes the slot under the identity hashed from the
    /// position's key, with the attempt's index; a red one moves on to the next
    /// attempt, and closes the slot empty after the last.
    pub open spec fn report(self, green: Option<u64>) -> ScanState {
        match green {
            Some(r) => ScanState {
                slot: self.slot + 1,
                attempt: 1,
                accepted: self.accepted.update(
                    self.slot as int,
                    Some((tab64_hash(self.tables.identities, r), self.attempt)),
                ),
                ..self
            },
            None => if self.attempt < self.limit {
                ScanState { attempt: (self.attempt + 1) as u32, ..self }
            } else {
                ScanState { slot: self.slot + 1, attempt: 1, ..self }
            },
        }
    }

    /// The scan after `count` attempts have been recorded as `green_at` tells;
    /// a finished scan stays as it is.
    pub open spec fn steps(self, green_at: spec_fn(int, u32) -> Option<u64>, count: nat) -> ScanState
        decreases count,
    {
        if count == 0 || self.finished() {
            self
        } else {
            self.report(green_at(self.slot as int, self.attempt)).steps(green_at, (count - 1) as nat)
        }
    }

    /// The sketch that the scan stands for as it is.
    pub open spec fn sketch(self) -> Seq<Slot> {
        sketch_of(self.accepted, self.tables.rotation)
    }

    /// The scan has so far recorded what `green_at` tells of every attempt of
    /// every slot: each slot before the cursor holds its first green attempt, and
    /// the attempts of the cursor's slot before the cursor were red.
    pub open spec fn on_course(self, green_at: spec_fn(int, u32) -> Option<u64>) -> bool {
        &&& forall|j: int| 0 <= j < self.slot && j < self.accepted.len() ==> #[trigger] self.accepted[j]
            == first_green(self.tables.identities, |t: u32| green_at(j, t), self.limit, 1)
        &&& !self.finished() ==> first_green(
            self.tables.identities,
            |t: u32| green_at(self.slot as int, t),
            self.limit,
            1,
        ) == first_green(self.tables.identities, |t: u32| green_at(self.slot as int, t), self.limit, self.attempt)
    }
}

impl View for ErsWmh {
    type V = ErsTables;

    closed spec fn view(&self) -> ErsTables {
        ErsTables {
            index: self.index@,
            k: self.k as nat,
            positions: tab64_table(self.t_u),
            identities: tab64_table(self.t_id),
            rotation: tab32_table(self.t_rot),
        }
    }
}

impl<'a> View for ErsScan<'a> {
    type V = ScanState;

    closed spec fn view(&self) -> ScanState {
        ScanState {
            tables: self.ers@,
            weights: self.weights@,
            limit: self.limit,
            slot: self.slot as nat,
            attempt: self.attempt,
            accepted: self.buckets@,
        }
    }
}

impl ErsWmh {
    /// The engine of `k` slots over `index` that draws positions with `t_u`, names
    /// accepted positions with `t_id` and rotates empty slots with `t_rot`.
    pub fn from_parts(
        index: RedGreenIndex,
        t_u: Tab64Simple,
        t_id: Tab64Simple,
        t_rot: Tab32Simple,
        k: u64,
    ) -> (ers: ErsWmh)
        requires
            k <= usize::MAX,
        ensures
            ers@ == (ErsTables {
                index: index@,
                k: k as nat,
                positions: tab64_table(t_u),
                identities: tab64_table(t_id),
                rotation: tab32_table(t_rot),
            }),
    {
        ErsWmh { index, t_u, t_id, t_rot, k: k as usize }
    }

    /// The engine of `k` slots over `index` whose hashers of positions and of
    /// identities have the tables made of the first and of the second 2048 words
    /// of `words64`, and whose hasher of rotation has the table made of
    /// `words32`.
    pub fn from_words(index: RedGreenIndex, words64: &Vec<u64>, words32: &Vec<u32>, k: u64) -> (ers: ErsWmh)
        requires
            k <= usize::MAX,
            words64@.len() == 4096,
            words32@.len() == 1024,
        ensures
            ers@ == (ErsTables {
                index: index@,
                k: k as nat,
                positions: table64_at(words64@, 0),
                identities: table64_at(words64@, 2048),
                rotation: table32_at(words32@, 0),
            }),
            is_table(ers@.positions, 8),
            is_table(ers@.identities, 8),
            is_table(ers@.rotation, 4),
    {
        let t_u = tab64_at(words64, 0);
        let t_id = tab64_at(words64, 2048);
        let t_rot = tab32_at(words32, 0);
        ErsWmh::from_parts(index, t_u, t_id, t_rot, k)
    }

    /// Builds an engine of `k` slots over `index` from the next words of `rng`:
    /// 4096 of 64 bits for the hashers of positions and of identities, then 1024
    /// of 32 bits for the hasher of rotation.
    pub fn new_mt(rng: &mut MT19937, index: RedGreenIndex, k: u64) -> (ers: ErsWmh)
        requires
            k <= usize::MAX,
        ensures
            ers@ == (ErsTables {
                index: index@,
                k: k as nat,
                positions: table64_at(mt_words64(mt_state(*old(rng)), 4096), 0),
                identities: table64_at(mt_words64(mt_state(*old(rng)), 4096), 2048),
                rotation: table32_at(mt_words32(mt_after(mt_state(*old(rng)), 8192), 1024), 0),
            }),
            is_table(ers@.positions, 8),
            is_table(ers@.identities, 8),
            is_table(ers@.rotation, 4),
            mt_state(*final(rng)) == mt_after(mt_state(*old(rng)), 9216),
    {
        let ghost begin = mt_state(*rng);
        let words64 = draw_words64(rng, 4096);
        let words32 = draw_words32(rng, 1024);
        proof {
            lemma_mt_after_add(begin, 8192, 1024);
        }
        ErsWmh::from_words(index, &words64, &words32, k)
    }

    /// The partition of the line.
    pub fn index(&self) -> (index: &RedGreenIndex)
        ensures
            index@ == self@.index,
    {
        &self.index
    }

    /// The number of slots of a sketch.
    pub fn k(&self) -> (k: usize)
        ensures
            k == self@.k,
    {
        self.k
    }

    /// Begins the sketching of `x` with at most `max_attempts` attempts per slot
    /// (1024 if none is named, and no more than `2^32 - 1`, the largest index
    /// that an attempt can have). Where nothing could be accepted, because the line
    /// is empty, `x` has no weight or no attempt is allowed, the scan is finished
    /// from the start.
    pub fn sketch<'a>(&'a self, x: &[Weighted], max_attempts: Option<u64>) -> (scan: ErsScan<'a>)
        requires
            forall|i: int| 0 <= i < x@.len() ==> (#[trigger] x@[i]).0 < self@.index.len() - 1,
        ensures
            scan@ == ScanState::initial(self@, dense(self@.index, x@), attempts_per_slot(max_attempts)),
            scan@.valid(),
    {
        let limit: u32 = match max_attempts {
            Some(v) => if v > u32::MAX as u64 {
                u32::MAX
            } else {
                v as u32
            },
            None => DEFAULT_ATTEMPTS,
        };
        let weights = dense_weights(self.index.d(), x);
        let mut massless = true;
        let mut c: usize = 0;
        while c < weights.len()
            invariant
                c <= weights@.len(),
                massless <==> forall|a: int| 0 <= a < c ==> #[trigger] weights@[a] == 0,
            decreases weights@.len() - c,
        {
            if weights[c] != 0 {
                massless = false;
            }
            c += 1;
        }
        let mut buckets: Vec<Accepted> = Vec::new();
        let mut j: usize = 0;
        while j < self.k
            invariant
                j <= self.k,
                buckets@.len() == j,
                forall|a: int| 0 <= a < j ==> (#[trigger] buckets@[a]) is None,
            decreases self.k - j,
        {
            buckets.push(None);
            j += 1;
        }
        let slot = if self.index.m_total() == 0 || massless || limit == 0 {
            self.k
        } else {
            0
        };
        assert(weights@ =~= dense(self@.index, x@));
        assert(buckets@ =~= Seq::new(self@.k, |j: int| None::<(u64, u32)>));
        ErsScan { ers: self, weights, limit, slot, attempt: 1, buckets }
    }

    /// Begins the sketching of `x` with the default number of attempts per slot.
    pub fn sketch_early_stop<'a>(&'a self, x: &[Weighted]) -> (scan: ErsScan<'a>)
        requires
            forall|i: int| 0 <= i < x@.len() ==> (#[trigger] x@[i]).0 < self@.index.len() - 1,
        ensures
            scan@ == ScanState::initial(self@, dense(self@.index, x@), DEFAULT_ATTEMPTS),
            scan@.valid(),
    {
        self.sketch(x, None)
    }

    /// Fills every empty slot, in turn, from the slot at which its walk stops.
    fn densify(&self, buckets: &mut Vec<Accepted>)
        ensures
            final(buckets)@ == densified(old(buckets)@, self@.rotation, old(buckets)@.len()),
    {
        let k = buckets.len();
        let ghost rot = self@.rotation;
        let ghost slots = buckets@;
        let mut j: usize = 0;
        while j < k
            invariant
                j <= k,
                k == slots.len(),
                rot == self@.rotation,
                buckets@ == densified(slots, rot, j as nat),
            decreases k - j,
        {
            proof {
                lemma_densified(slots, rot, j as nat);
            }
            if buckets[j].is_none() {
                let h = self.t_rot.hash(#[verifier::truncate] (j as u32)) as usize;
                let span = if k > 1 {
                    k - 1
                } else {
                    1
                };
                let offset = h % span + 1;
                let start = if offset >= k - j {
                    offset - (k - j)
                } else {
                    j + offset
                };
                assert(start == rotation_start(rot, k as int, j as int)) by {
                    let sum = j + offset;
                    if sum < k {
                        assert(sum % (k as int) == sum) by (nonlinear_arith)
                            requires
                                0 <= sum < k,
                        ;
                    } else {
                        assert(sum % (k as int) == sum - k) by (nonlinear_arith)
                            requires
                                k <= sum < 2 * k,
                        ;
                    }
                }
                let mut idx = start;
                let mut left = k;
                while left > 0 && buckets[idx].is_none()
                    invariant
                        idx < k,
                        left <= k,
                        k == buckets@.len(),
                        walk(buckets@, start as int, k as nat) == walk(buckets@, idx as int, left as nat),
                    decreases left,
                {
                    idx = if idx + 1 == k {
                        0
                    } else {
                        idx + 1
                    };
                    left -= 1;
                }
                let donor = buckets[idx];
                buckets.set(j, donor);
            }
            j += 1;
        }
    }

    /// The sketch that a table of scan results stands for.
    fn sketch_from(&self, buckets: Vec<Accepted>) -> (out: Vec<Slot>)
        ensures
            out@ == sketch_of(buckets@, self@.rotation),
    {
        let mut buckets = buckets;
        let ghost slots = buckets@;
        let ghost rot = self@.rotation;
        let k = buckets.len();
        let mut empty = true;
        let mut j: usize = 0;
        while j < k
            invariant
                j <= k,
                k == buckets@.len(),
                empty <==> forall|a: int| 0 <= a < j ==> (#[trigger] buckets@[a]) is None,
            decreases k - j,
        {
            if buckets[j].is_some() {
                empty = false;
            }
            j += 1;
        }
        let mut out: Vec<Slot> = Vec::new();
        if empty {
            let mut j: usize = 0;
            while j < k
                invariant
                    j <= k,
                    rot == self@.rotation,
                    out@.len() == j,
                    forall|a: int| 0 <= a < j ==> #[trigger] out@[a] == (fallback_id(rot, a), None::<u32>),
                decreases k - j,
            {
                let h = self.t_rot.hash(#[verifier::truncate] (j as u32));
                let fake = ((h as u64) << 32) | (j as u64);
                out.push((fake, None));
                j += 1;
            }
            assert(out@ =~= sketch_of(slots, rot));
        } else {
            self.densify(&mut buckets);
            proof {
                lemma_densified(slots, rot, k as nat);
            }
            let mut j: usize = 0;
            while j < k
                invariant
                    j <= k,
                    k == buckets@.len(),
                    buckets@ == densified(slots, rot, k as nat),
                    forall|a: int| 0 <= a < k ==> (#[trigger] buckets@[a]) is Some,
                    out@.len() == j,
                    forall|a: int| 0 <= a < j ==> #[trigger] out@[a] == (
                        buckets@[a].unwrap().0,
                        Some(buckets@[a].unwrap().1),
                    ),
                decreases k - j,
            {
                let (id, t) = buckets[j].unwrap();
                out.push((id, Some(t)));
                j += 1;
            }
            assert(out@ =~= sketch_of(slots, rot));
        }
        out
    }
}

impl<'a> ErsScan<'a> {
    #[verifier::type_invariant]
    spec fn wf(&self) -> bool {
        self@.valid()
    }

    /// The hash from which the next candidate position is derived, or nothing
    /// when the scan is finished. Divided by `2^64 - 1`, clamped below one and
    /// scaled by `M`, it is the position to test.
    pub fn next_draw(&self) -> (draw: Option<u64>)
        ensures
            draw == self@.next_draw(),
    {
        if self.slot >= self.buckets.len() {
            None
        } else {
            let key = ((self.slot as u64) << 32) ^ (self.attempt as u64);
            Some(self.ers.t_u.hash(key))
        }
    }

    /// The coordinate whose interval covers the position with key `r`: the key
    /// of the interval's left boundary and the key of the weight that the
    /// scanned vector has there. The position is green when it lies within the
    /// first `x_i` units of the interval, that is strictly below the sum of the
    /// two; at a coordinate without weight no position is green. A position at or
    /// beyond `M` is looked up as the largest key below `M`.
    pub fn covering(&self, r: u64) -> (res: (usize, u64, u64))
        requires
            !self@.finished(),
        ensures
            res.0 < self@.weights.len(),
            res.1 == self@.tables.index[res.0 as int],
            res.2 == self@.weights[res.0 as int],
            self@.tables.index[res.0 as int] <= clamped(self@.tables.index, r) < self@.tables.index[res.0 + 1],
    {
        proof {
            use_type_invariant(self);
        }
        let (i, base) = self.ers.index.comp_of(r);
        (i, base, self.weights[i])
    }

    /// Records the outcome of the attempt that `next_draw` announced: the key of
    /// the position if it was green, nothing if it was red. A green position
    /// closes the slot under the identity hashed from the position's key and the
    /// attempt's index; a red one moves on to the next attempt, and closes the
    /// slot empty after the last.
    pub fn report(self, green: Option<u64>) -> (next: ErsScan<'a>)
        requires
            !self@.finished(),
        ensures
            next@ == self@.report(green),
            next@.valid(),
    {
        proof {
            use_type_invariant(&self);
        }
        let ErsScan { ers, weights, limit, slot, attempt, mut buckets } = self;
        let slots = buckets.len();
        assert(slot < slots);
        let next_slot = slot + 1;
        match green {
            Some(r) => {
                let id = ers.t_id.hash(r);
                buckets.set(slot, Some((id, attempt)));
                ErsScan { ers, weights, limit, slot: next_slot, attempt: 1, buckets }
            },
            None => {
                if attempt < limit {
                    ErsScan { ers, weights, limit, slot, attempt: attempt + 1, buckets }
                } else {
                    ErsScan { ers, weights, limit, slot: next_slot, attempt: 1, buckets }
                }
            },
        }
    }

    /// The sketch that the scan stands for, one slot per slot of the engine. If
    /// no slot accepted anything it is the fallback sketch: slot `j` carries an
    /// identity made of the hash of `j` above and `j` itself below, ranked
    /// infinite. Otherwise every slot that accepted carries its identity with its
    /// attempt index, and every empty one carries what the slot holds at which its
    /// walk stops. Slots that the scan has not reached count as empty.
    pub fn finish(self) -> (out: Vec<Slot>)
        ensures
            out@ == self@.sketch(),
            out@.len() == self@.tables.k,
            populated(self@.accepted, self@.tables.rotation, out@),
            forall|j: int| 0 <= j < out@.len() ==> ((#[trigger] out@[j]).1 matches Some(t) ==> 1 <= t <= self@.limit),
    {
        proof {
            use_type_invariant(&self);
            lemma_sketch_populated(self@.accepted, self@.tables.rotation);
            lemma_sketch_ranks(self@);
        }
        let ErsScan { ers, weights: _, limit: _, slot: _, attempt: _, buckets } = self;
        ers.sketch_from(buckets)
    }
}

/// Fallback identities tell their slots apart: among up to `2^32` slots no two
/// have the same, for each carries its slot in its low half.
pub proof fn lemma_fallback_ids_differ(rot: Seq<Seq<u32>>, i: int, j: int)
    requires
        0 <= i < j < 0x1_0000_0000,
    ensures
        fallback_id(rot, i) != fallback_id(rot, j),
{
    let hi = tab32_hash(rot, i as u32) as u64;
    let hj = tab32_hash(rot, j as u32) as u64;
    let a = i as u64;
    let b = j as u64;
    assert(((hi << 32) | a) & 0xffff_ffff == a) by (bit_vector)
        requires
            a < 0x1_0000_0000,
    ;
    assert(((hj << 32) | b) & 0xffff_ffff == b) by (bit_vector)
        requires
            b < 0x1_0000_0000,
    ;
}

/// The rank of every slot of the sketch of a valid scan is infinite or an
/// attempt index within the limit.
pub proof fn lemma_sketch_ranks(scan: ScanState)
    requires
        scan.valid(),
    ensures
        forall|j: int| 0 <= j < scan.sketch().len() ==> ((#[trigger] scan.sketch()[j]).1 matches Some(t) ==> 1
            <= t <= scan.limit),
{
    let sketch = scan.sketch();
    lemma_sketch_populated(scan.accepted, scan.tables.rotation);
    assert forall|j: int| 0 <= j < sketch.len() implies ((#[trigger] sketch[j]).1 matches Some(t) ==> 1 <= t
        <= scan.limit) by {
        if !all_empty(scan.accepted) {
            let i = choose|i: int|
                0 <= i < scan.accepted.len() && #[trigger] scan.accepted[i] == Some(
                    (sketch[j].0, sketch[j].1.unwrap()),
                ) && sketch[j].1 is Some;
            assert(scan.accepted[i] is Some);
        }
    }
}

/// A scan begins valid, provided that it has one weight per coordinate.
pub proof fn lemma_initial_valid(tables: ErsTables, weights: Seq<u64>, limit: u32)
    requires
        weights.len() == tables.index.len() - 1,
    ensures
        ScanState::initial(tables, weights, limit).valid(),
{
}

/// A scan begins on course, provided that no attempt is green where nothing
/// can be accepted.
pub proof fn lemma_initial_on_course(
    tables: ErsTables,
    weights: Seq<u64>,
    limit: u32,
    green_at: spec_fn(int, u32) -> Option<u64>,
)
    requires
        degenerate(tables.index.last(), weights) ==> forall|j: int, t: u32| (#[trigger] green_at(j, t)) is None,
    ensures
        ScanState::initial(tables, weights, limit).on_course(green_at),
{
    let scan = ScanState::initial(tables, weights, limit);
    assert forall|j: int| 0 <= j < scan.slot && j < scan.accepted.len() implies #[trigger] scan.accepted[j]
        == first_green(tables.identities, |t: u32| green_at(j, t), limit, 1) by {
        lemma_never_green(tables.identities, |t: u32| green_at(j, t), limit, 1);
    }
}

/// A slot none of whose attempts is green accepts nothing.
pub proof fn lemma_never_green(id_table: Seq<Seq<u64>>, green_at: spec_fn(u32) -> Option<u64>, limit: u32, from: u32)
    requires
        forall|t: u32| from <= t <= limit ==> (#[trigger] green_at(t)) is None,
    ensures
        first_green(id_table, green_at, limit, from) is None,
    decreases limit - from,
{
    if from < limit {
        lemma_never_green(id_table, green_at, limit, (from + 1) as u32);
    }
}

/// Recording an outcome keeps a scan valid.
pub proof fn lemma_report_valid(scan: ScanState, green: Option<u64>)
    requires
        scan.valid(),
        !scan.finished(),
    ensures
        scan.report(green).valid(),
{
}

/// Recording what `green_at` tells of the next attempt keeps a scan on course.
pub proof fn lemma_report_on_course(scan: ScanState, green_at: spec_fn(int, u32) -> Option<u64>)
    requires
        scan.valid(),
        !scan.finished(),
        scan.on_course(green_at),
    ensures
        scan.report(green_at(scan.slot as int, scan.attempt)).on_course(green_at),
{
    let j = scan.slot as int;
    let id_table = scan.tables.identities;
    let next = scan.report(green_at(j, scan.attempt));
    let here = |t: u32| green_at(j, t);
    assert(here(scan.attempt) == green_at(j, scan.attempt));
    if green_at(j, scan.attempt) is None && scan.attempt < scan.limit {
    } else {
        assert(next.accepted[j] == first_green(id_table, here, scan.limit, scan.attempt));
        assert forall|a: int| 0 <= a < next.slot && a < next.accepted.len() implies #[trigger] next.accepted[a]
            == first_green(id_table, |t: u32| green_at(a, t), next.limit, 1) by {
            if a < j {
                assert(next.accepted[a] == scan.accepted[a]);
            }
        }
    }
}

/// A finished scan that is on course has recorded, for every slot, the first
/// green attempt among those allowed, or nothing.
pub proof fn lemma_finished_on_course(scan: ScanState, green_at: spec_fn(int, u32) -> Option<u64>)
    requires
        scan.valid(),
        scan.finished(),
        scan.on_course(green_at),
    ensures
        scan.accepted == Seq::new(
            scan.tables.k,
            |j: int| first_green(scan.tables.identities, |t: u32| green_at(j, t), scan.limit, 1),
        ),
{
    assert(scan.accepted =~= Seq::new(
        scan.tables.k,
        |j: int| first_green(scan.tables.identities, |t: u32| green_at(j, t), scan.limit, 1),
    ));
}

/// Any number of attempts recorded as `green_at` tells keeps a scan valid and
/// on course.
pub proof fn lemma_steps_on_course(scan: ScanState, green_at: spec_fn(int, u32) -> Option<u64>, count: nat)
    requires
        scan.valid(),
        scan.on_course(green_at),
    ensures
        scan.steps(green_at, count).valid(),
        scan.steps(green_at, count).on_course(green_at),
        scan.steps(green_at, count).tables == scan.tables,
        scan.steps(green_at, count).limit == scan.limit,
    decreases count,
{
    if count > 0 && !scan.finished() {
        lemma_report_valid(scan, green_at(scan.slot as int, scan.attempt));
        lemma_report_on_course(scan, green_at);
        lemma_steps_on_course(scan.report(green_at(scan.slot as int, scan.attempt)), green_at, (count - 1) as nat);
    }
}

/// The scan sketches by first green attempts: begun on a vector and answered as
/// `green_at` tells at every attempt, it stands, once it is finished, for the
/// sketch of what every slot accepts at its first green attempt within the
/// limit.
pub proof fn lemma_scan_accepts_first_green(
    tables: ErsTables,
    weights: Seq<u64>,
    limit: u32,
    green_at: spec_fn(int, u32) -> Option<u64>,
    count: nat,
)
    requires
        weights.len() == tables.index.len() - 1,
        degenerate(tables.index.last(), weights) ==> forall|j: int, t: u32| (#[trigger] green_at(j, t)) is None,
        ScanState::initial(tables, weights, limit).steps(green_at, count).finished(),
    ensures
        ScanState::initial(tables, weights, limit).steps(green_at, count).sketch() == sketch_of(
            Seq::new(tables.k, |j: int| first_green(tables.identities, |t: u32| green_at(j, t), limit, 1)),
            tables.rotation,
        ),
{
    let begin = ScanState::initial(tables, weights, limit);
    lemma_initial_valid(tables, weights, limit);
    lemma_initial_on_course(tables, weights, limit, green_at);
    lemma_steps_on_course(begin, green_at, count);
    lemma_finished_on_course(begin.steps(green_at, count), green_at);
}

} // verus!
