//! Dart throwing: the keyed hashing that realises a unit-rate Poisson process
//! over the weight/rank plane, and the bucketing of darts into a MinHash.
//!
//! The plane is cut into dyadic bands, band `nu` on the weight axis and band
//! `rho` on the rank axis, and each band into a grid of cells `(w, r)`. Every cell
//! of every coordinate has a key of its own; the key decides how many points the
//! cell holds, and each point has a key that decides where in the cell it lies and
//! under which identity it is known. Where the cells lie in the plane, and hence
//! which points are darts, is arithmetic on reals and is the caller's part.

use crate::hash_utils::{
    draw_words32, draw_words64, is_table, lemma_mt_after_add, mt_after, mt_state, mt_words32, mt_words64,
    tab32_at, tab32_hash, tab32_table, tab64_at, tab64_hash, tab64_table, table32_at, table64_at, to_units,
};
use crate::keys::{Dart, INFINITY_KEY};
use mt19937::MT19937;
use tab_hash::{Tab32Simple, Tab64Simple};
use vstd::prelude::*;

verus! {

/// The nine hashers of a dart thrower.
pub struct DartHash {
    t: u64,
    t_nu: Tab32Simple,
    t_rho: Tab32Simple,
    t_w: Tab32Simple,
    t_r: Tab32Simple,
    t_i: Tab64Simple,
    t_p: Tab64Simple,
    t_q: Tab64Simple,
    f_h: Tab64Simple,
    m_h: Tab64Simple,
}

/// A dart thrower as a value: the expected number of darts per unit of weight
/// and the tables of the nine hashers, by what each one hashes.
pub struct DartTables {
    /// Expected number of darts per unit of weight.
    pub t: u64,
    /// Weight band.
    pub nu: Seq<Seq<u32>>,
    /// Rank band.
    pub rho: Seq<Seq<u32>>,
    /// Cell offset on the weight axis.
    pub w: Seq<Seq<u32>>,
    /// Cell offset on the rank axis.
    pub r: Seq<Seq<u32>>,
    /// Coordinate id.
    pub i: Seq<Seq<u64>>,
    /// Cell key, for the number of points in the cell.
    pub p: Seq<Seq<u64>>,
    /// Point key, for the point's place in the cell.
    pub q: Seq<Seq<u64>>,
    /// Point key, for the dart's identity.
    pub f: Seq<Seq<u64>>,
    /// Dart identity, for its bucket.
    pub m: Seq<Seq<u64>>,
}

impl DartTables {
    /// The thrower whose tables are made of 4096 words of 32 bits and 10240
    /// words of 64 bits, 1024 and 2048 at a time: of the former the tables for
    /// weight band, rank band, weight offset and rank offset, of the latter those
    /// for coordinate, cell, point, identity and bucket.
    pub open spec fn of_words(t: u64, words32: Seq<u32>, words64: Seq<u64>) -> DartTables {
        DartTables {
            t,
            nu: table32_at(words32, 0),
            rho: table32_at(words32, 1024),
            w: table32_at(words32, 2048),
            r: table32_at(words32, 3072),
            i: table64_at(words64, 0),
            p: table64_at(words64, 2048),
            q: table64_at(words64, 4096),
            f: table64_at(words64, 6144),
            m: table64_at(words64, 8192),
        }
    }

    /// The thrower that is drawn from a generator in this state: its words of 32
    /// bits are the first 4096 that the generator gives, its words of 64 bits the
    /// 10240 that follow.
    pub open spec fn drawn(t: u64, state: Seq<u32>) -> DartTables {
        DartTables::of_words(t, mt_words32(state, 4096), mt_words64(mt_after(state, 4096), 10240))
    }

    /// Every table has its shape.
    pub open spec fn shaped(self) -> bool {
        &&& is_table(self.nu, 4)
        &&& is_table(self.rho, 4)
        &&& is_table(self.w, 4)
        &&& is_table(self.r, 4)
        &&& is_table(self.i, 8)
        &&& is_table(self.p, 8)
        &&& is_table(self.q, 8)
        &&& is_table(self.f, 8)
        &&& is_table(self.m, 8)
    }
}

/// Number of cells along one axis of a band with exponent `e`: `2^e`, capped
/// at `2^31`.
pub open spec fn band_cells(e: u32) -> u32 {
    if e < 32 {
        1u32 << e
    } else {
        1u32 << 31u32
    }
}

/// The part of a cell's key that its band gives.
pub open spec fn region_key(tables: DartTables, nu: u32, rho: u32) -> u64 {
    (tab32_hash(tables.nu, nu) as u64) ^ (tab32_hash(tables.rho, rho) as u64)
}

/// The part of a cell's key that its place in the band gives.
pub open spec fn area_key(tables: DartTables, w: u32, r: u32) -> u64 {
    (tab32_hash(tables.w, w) as u64) ^ (tab32_hash(tables.r, r) as u64)
}

/// The key of cell `(w, r)` of band `(nu, rho)` of the coordinate `id`: the
/// exclusive-or of one hash for each of the five.
pub open spec fn cell_key(tables: DartTables, id: u64, nu: u32, rho: u32, w: u32, r: u32) -> u64 {
    tab64_hash(tables.i, id) ^ region_key(tables, nu, rho) ^ area_key(tables, w, r)
}

/// The key of point `q` of the cell with key `z`: `z` with `q` folded into
/// every byte.
pub open spec fn point_key(z: u64, q: u64) -> u64 {
    z ^ (q << 56) ^ (q << 48) ^ (q << 40) ^ (q << 32) ^ (q << 24) ^ (q << 16) ^ (q << 8) ^ q
}

/// A band has at least one cell along an axis and at most `2^31`.
pub proof fn lemma_band_cells(e: u32)
    ensures
        1 <= band_cells(e) <= 0x8000_0000,
{
    assert(e < 32 ==> 1 <= (1u32 << e) <= 0x8000_0000) by (bit_vector);
    assert((1u32 << 31u32) == 0x8000_0000) by (bit_vector);
}

/// Number of cells along one axis of a band with exponent `e`.
pub fn band_width(e: u32) -> (n: u32)
    ensures
        n == band_cells(e),
{
    if e < 32 {
        1u32 << e
    } else {
        1u32 << 31u32
    }
}

/// The number that a uniform variate with key `p` draws from the cumulative
/// distribution `cdf`: the number of leading entries below `p`.
pub open spec fn inverse_cdf(cdf: Seq<u64>, p: u64) -> nat
    decreases cdf.len(),
{
    if cdf.len() == 0 || p <= cdf[0] {
        0
    } else {
        1 + inverse_cdf(cdf.drop_first(), p)
    }
}

/// Draws the number of points of a cell from the cumulative distribution `cdf`
/// by linear scan, given the key `p` of the cell's uniform variate: the first
/// index whose entry is not below `p`, or the table's length if every entry is.
pub fn poisson_count(cdf: &[u64], p: u64) -> (count: usize)
    ensures
        count == inverse_cdf(cdf@, p),
        count <= cdf@.len(),
        forall|c: int| 0 <= c < count ==> p > #[trigger] cdf@[c],
        count < cdf@.len() ==> p <= cdf@[count as int],
{
    let mut count: usize = 0;
    assert(cdf@.skip(0) == cdf@);
    while count < cdf.len() && p > cdf[count]
        invariant
            count <= cdf@.len(),
            forall|c: int| 0 <= c < count ==> p > #[trigger] cdf@[c],
            inverse_cdf(cdf@, p) == count + inverse_cdf(cdf@.skip(count as int), p),
        decreases cdf@.len() - count,
    {
        assert(cdf@.skip(count as int).drop_first() == cdf@.skip(count + 1));
        count += 1;
    }
    count
}

/// The bucket, among `k`, of the dart known as `id`.
pub open spec fn bucket_of(table: Seq<Seq<u64>>, k: u64, id: u64) -> int {
    (tab64_hash(table, id) % k) as int
}

/// Dart `i` of `darts` falls into bucket `j`.
pub open spec fn routed(table: Seq<Seq<u64>>, k: u64, darts: Seq<Dart>, i: int, j: int) -> bool {
    0 <= i < darts.len() && bucket_of(table, k, darts[i].0) == j
}

/// `winner` is what bucket `j` holds once `darts` have been thrown at it, given
/// that it held `before`: the dart of least rank, the earliest of them if several
/// share that rank, and `before` itself unless a dart ranks strictly below it.
pub open spec fn is_winner(
    table: Seq<Seq<u64>>,
    k: u64,
    before: Dart,
    darts: Seq<Dart>,
    j: int,
    winner: Dart,
) -> bool {
    &&& winner.1 <= before.1
    &&& forall|i: int| routed(table, k, darts, i, j) ==> winner.1 <= (#[trigger] darts[i]).1
    &&& {
        ||| winner == before
        ||| exists|i: int|
            {
                &&& routed(table, k, darts, i, j)
                &&& #[trigger] darts[i] == winner
                &&& winner.1 < before.1
                &&& forall|e: int| 0 <= e < i && routed(table, k, darts, e, j) ==> winner.1 < (#[trigger] darts[e]).1
            }
    }
}

/// What bucket `j` holds after each of `darts` in turn has replaced its content
/// where it fell into `j` with a strictly lower rank.
pub open spec fn winner_of(table: Seq<Seq<u64>>, k: u64, before: Dart, darts: Seq<Dart>, j: int) -> Dart
    decreases darts.len(),
{
    if darts.len() == 0 {
        before
    } else {
        let held = winner_of(table, k, before, darts.drop_last(), j);
        let d = darts.last();
        if bucket_of(table, k, d.0) == j && d.1 < held.1 {
            d
        } else {
            held
        }
    }
}

/// Some dart of `darts` falls into bucket `j`.
pub open spec fn receives(table: Seq<Seq<u64>>, k: u64, darts: Seq<Dart>, j: int) -> bool {
    exists|i: int| routed(table, k, darts, i, j)
}

/// Replacing in turn yields the winner.
pub proof fn lemma_winner_of(table: Seq<Seq<u64>>, k: u64, before: Dart, darts: Seq<Dart>, j: int)
    ensures
        is_winner(table, k, before, darts, j, winner_of(table, k, before, darts, j)),
    decreases darts.len(),
{
    if darts.len() > 0 {
        let head = darts.drop_last();
        let held = winner_of(table, k, before, head, j);
        let d = darts.last();
        let last = darts.len() - 1;
        let now = winner_of(table, k, before, darts, j);
        lemma_winner_of(table, k, before, head, j);
        assert forall|i: int| routed(table, k, darts, i, j) implies now.1 <= (#[trigger] darts[i]).1 by {
            if i < last {
                assert(routed(table, k, head, i, j));
                assert(head[i] == darts[i]);
            }
        }
        if bucket_of(table, k, d.0) == j && d.1 < held.1 {
            assert(routed(table, k, darts, last, j));
            assert(darts[last] == now);
            assert forall|e: int| 0 <= e < last && routed(table, k, darts, e, j) implies now.1 < (
            #[trigger] darts[e]).1 by {
                assert(routed(table, k, head, e, j));
                assert(head[e] == darts[e]);
            }
        } else if held != before {
            let i = choose|i: int|
                {
                    &&& routed(table, k, head, i, j)
                    &&& #[trigger] head[i] == held
                    &&& held.1 < before.1
                    &&& forall|e: int| 0 <= e < i && routed(table, k, head, e, j) ==> held.1 < (#[trigger] head[e]).1
                };
            assert(routed(table, k, darts, i, j));
            assert(darts[i] == now);
            assert forall|e: int| 0 <= e < i && routed(table, k, darts, e, j) implies now.1 < (
            #[trigger] darts[e]).1 by {
                assert(routed(table, k, head, e, j));
                assert(head[e] == darts[e]);
            }
        }
    }
}

/// A bucket has one winner only.
pub proof fn lemma_winner_unique(
    table: Seq<Seq<u64>>,
    k: u64,
    before: Dart,
    darts: Seq<Dart>,
    j: int,
    a: Dart,
    b: Dart,
)
    requires
        is_winner(table, k, before, darts, j, a),
        is_winner(table, k, before, darts, j, b),
    ensures
        a == b,
{
    if a != before {
        let ia = choose|i: int|
            {
                &&& routed(table, k, darts, i, j)
                &&& #[trigger] darts[i] == a
                &&& a.1 < before.1
                &&& forall|e: int| 0 <= e < i && routed(table, k, darts, e, j) ==> a.1 < (#[trigger] darts[e]).1
            };
        assert(b.1 <= darts[ia].1);
        assert(b != before);
        let ib = choose|i: int|
            {
                &&& routed(table, k, darts, i, j)
                &&& #[trigger] darts[i] == b
                &&& b.1 < before.1
                &&& forall|e: int| 0 <= e < i && routed(table, k, darts, e, j) ==> b.1 < (#[trigger] darts[e]).1
            };
        assert(a.1 <= darts[ib].1);
        if ia < ib {
            assert(b.1 < darts[ia].1);
        } else if ib < ia {
            assert(a.1 < darts[ib].1);
        }
    } else if b != before {
        let ib = choose|i: int|
            {
                &&& routed(table, k, darts, i, j)
                &&& #[trigger] darts[i] == b
                &&& b.1 < before.1
                &&& forall|e: int| 0 <= e < i && routed(table, k, darts, e, j) ==> b.1 < (#[trigger] darts[e]).1
            };
        assert(a.1 <= darts[ib].1);
    }
}

/// Replacing in turn over two rounds is replacing in turn over the first and
/// then, from its outcome, over the second.
pub proof fn lemma_winner_of_rounds(
    table: Seq<Seq<u64>>,
    k: u64,
    before: Dart,
    first: Seq<Dart>,
    second: Seq<Dart>,
    j: int,
)
    ensures
        winner_of(table, k, before, first + second, j) == winner_of(
            table,
            k,
            winner_of(table, k, before, first, j),
            second,
            j,
        ),
    decreases second.len(),
{
    if second.len() == 0 {
        assert(first + second =~= first);
    } else {
        assert((first + second).drop_last() =~= first + second.drop_last());
        assert((first + second).last() == second.last());
        lemma_winner_of_rounds(table, k, before, first, second.drop_last(), j);
    }
}

/// Rounds add up: what a bucket holds after two rounds is the winner among what
/// it held before them and the darts of both, those of the first round first.
pub proof fn lemma_winner_over_rounds(
    table: Seq<Seq<u64>>,
    k: u64,
    before: Dart,
    first: Seq<Dart>,
    second: Seq<Dart>,
    j: int,
    between: Dart,
    after: Dart,
)
    requires
        is_winner(table, k, before, first, j, between),
        is_winner(table, k, between, second, j, after),
    ensures
        is_winner(table, k, before, first + second, j, after),
{
    lemma_winner_of(table, k, before, first, j);
    lemma_winner_unique(table, k, before, first, j, between, winner_of(table, k, before, first, j));
    lemma_winner_of(table, k, between, second, j);
    lemma_winner_unique(table, k, between, second, j, after, winner_of(table, k, between, second, j));
    lemma_winner_of_rounds(table, k, before, first, second, j);
    lemma_winner_of(table, k, before, first + second, j);
}

/// A round has one outcome only: two tables that both hold the winner of every
/// bucket are the same table.
pub proof fn lemma_winners_unique(
    table: Seq<Seq<u64>>,
    k: u64,
    before: Seq<Dart>,
    darts: Seq<Dart>,
    a: Seq<Dart>,
    b: Seq<Dart>,
)
    requires
        a.len() == k,
        b.len() == k,
        forall|j: int| 0 <= j < k ==> is_winner(table, k, before[j], darts, j, #[trigger] a[j]),
        forall|j: int| 0 <= j < k ==> is_winner(table, k, before[j], darts, j, #[trigger] b[j]),
    ensures
        a == b,
{
    assert forall|j: int| 0 <= j < k implies a[j] == b[j] by {
        lemma_winner_unique(table, k, before[j], darts, j, a[j], b[j]);
    }
    assert(a =~= b);
}

/// Throws `darts` at the buckets `slots`: each dart goes to the bucket that
/// `hasher` gives its identity and replaces what the bucket holds if it ranks
/// strictly lower. Tells for each bucket whether a dart fell into it.
pub(crate) fn route(hasher: &Tab64Simple, k: u64, slots: &mut Vec<Dart>, darts: &[Dart]) -> (filled: Vec<bool>)
    requires
        0 < k,
        old(slots)@.len() == k,
    ensures
        final(slots)@.len() == k,
        filled@.len() == k,
        forall|j: int| 0 <= j < k ==> #[trigger] final(slots)@[j] == winner_of(
            tab64_table(*hasher), k, old(slots)@[j], darts@, j),
        forall|j: int| 0 <= j < k ==> (#[trigger] filled@[j] <==> receives(tab64_table(*hasher), k, darts@, j)),
{
    let ghost table = tab64_table(*hasher);
    let ghost before = slots@;
    let slot_count = slots.len();
    let mut filled: Vec<bool> = Vec::new();
    let mut j: u64 = 0;
    while j < k
        invariant
            j <= k,
            filled@.len() == j,
            forall|a: int| 0 <= a < j ==> !(#[trigger] filled@[a]),
        decreases k - j,
    {
        filled.push(false);
        j += 1;
    }
    let mut n: usize = 0;
    while n < darts.len()
        invariant
            0 < k == slot_count,
            n <= darts@.len(),
            table == tab64_table(*hasher),
            before.len() == k,
            slots@.len() == k,
            filled@.len() == k,
            forall|j: int| 0 <= j < k ==> #[trigger] slots@[j] == winner_of(
                table, k, before[j], darts@.take(n as int), j),
            forall|j: int| 0 <= j < k ==> (#[trigger] filled@[j] <==> receives(table, k, darts@.take(n as int), j)),
        decreases darts@.len() - n,
    {
        let (id, rank) = darts[n];
        let j = (hasher.hash(id) % k) as usize;
        let ghost head = darts@.take(n as int);
        let ghost now = darts@.take(n + 1);
        assert(now.drop_last() == head);
        assert(now.last() == darts@[n as int]);
        filled.set(j, true);
        if rank < slots[j].1 {
            slots.set(j, (id, rank));
        }
        proof {
            assert(routed(table, k, now, n as int, j as int));
            assert forall|b: int| 0 <= b < k implies (#[trigger] filled@[b] <==> receives(table, k, now, b)) by {
                if receives(table, k, head, b) {
                    let i = choose|i: int| routed(table, k, head, i, b);
                    assert(routed(table, k, now, i, b));
                }
                if receives(table, k, now, b) && b != j {
                    let i = choose|i: int| routed(table, k, now, i, b);
                    assert(routed(table, k, head, i, b));
                }
            }
        }
        n += 1;
    }
    assert(darts@.take(darts@.len() as int) == darts@);
    filled
}

impl View for DartHash {
    type V = DartTables;

    closed spec fn view(&self) -> DartTables {
        DartTables {
            t: self.t,
            nu: tab32_table(self.t_nu),
            rho: tab32_table(self.t_rho),
            w: tab32_table(self.t_w),
            r: tab32_table(self.t_r),
            i: tab64_table(self.t_i),
            p: tab64_table(self.t_p),
            q: tab64_table(self.t_q),
            f: tab64_table(self.f_h),
            m: tab64_table(self.m_h),
        }
    }
}

impl DartHash {
    /// The dart thrower that expects `t` darts per unit of weight and hashes
    /// with the nine hashers given: those of weight band, rank band, weight offset
    /// and rank offset, then those of coordinate, cell, point, identity and bucket.
    pub fn from_hashers(
        t: u64,
        t_nu: Tab32Simple,
        t_rho: Tab32Simple,
        t_w: Tab32Simple,
        t_r: Tab32Simple,
        t_i: Tab64Simple,
        t_p: Tab64Simple,
        t_q: Tab64Simple,
        f_h: Tab64Simple,
        m_h: Tab64Simple,
    ) -> (dh: DartHash)
        ensures
            dh@ == (DartTables {
                t,
                nu: tab32_table(t_nu),
                rho: tab32_table(t_rho),
                w: tab32_table(t_w),
                r: tab32_table(t_r),
                i: tab64_table(t_i),
                p: tab64_table(t_p),
                q: tab64_table(t_q),
                f: tab64_table(f_h),
                m: tab64_table(m_h),
            }),
    {
        DartHash { t, t_nu, t_rho, t_w, t_r, t_i, t_p, t_q, f_h, m_h }
    }

    /// The dart thrower that expects `t` darts per unit of weight and whose
    /// nine tables are made of the words given, 1024 of 32 bits and 2048 of 64
    /// bits at a time, in the order weight band, rank band, weight offset, rank
    /// offset, and coordinate, cell, point, identity, bucket.
    pub fn from_words(t: u64, words32: &Vec<u32>, words64: &Vec<u64>) -> (dh: DartHash)
        requires
            words32@.len() == 4096,
            words64@.len() == 10240,
        ensures
            dh@ == DartTables::of_words(t, words32@, words64@),
            dh@.shaped(),
    {
        let t_nu = tab32_at(words32, 0);
        let t_rho = tab32_at(words32, 1024);
        let t_w = tab32_at(words32, 2048);
        let t_r = tab32_at(words32, 3072);
        let t_i = tab64_at(words64, 0);
        let t_p = tab64_at(words64, 2048);
        let t_q = tab64_at(words64, 4096);
        let f_h = tab64_at(words64, 6144);
        let m_h = tab64_at(words64, 8192);
        DartHash::from_hashers(t, t_nu, t_rho, t_w, t_r, t_i, t_p, t_q, f_h, m_h)
    }

    /// Builds a dart thrower that expects `t` darts per unit of weight from the
    /// next words of `rng`: 4096 of 32 bits, then 10240 of 64 bits.
    pub fn new_mt(rng: &mut MT19937, t: u64) -> (dh: DartHash)
        ensures
            dh@ == DartTables::drawn(t, mt_state(*old(rng))),
            dh@.shaped(),
            mt_state(*final(rng)) == mt_after(mt_state(*old(rng)), 24576),
    {
        let ghost begin = mt_state(*rng);
        let words32 = draw_words32(rng, 4096);
        let words64 = draw_words64(rng, 10240);
        proof {
            lemma_mt_after_add(begin, 4096, 20480);
        }
        DartHash::from_words(t, &words32, &words64)
    }

    /// The number of darts that a vector of weight one is expected to receive.
    pub fn t(&self) -> (t: u64)
        ensures
            t == self@.t,
    {
        self.t
    }

    /// Hash of a coordinate id, the first part of the keys of its cells.
    pub fn coordinate_hash(&self, i: u64) -> (h: u64)
        ensures
            h == tab64_hash(self@.i, i),
    {
        self.t_i.hash(i)
    }

    /// The part of a cell's key that band `(nu, rho)` gives.
    pub fn region_hash(&self, nu: u32, rho: u32) -> (h: u64)
        ensures
            h == region_key(self@, nu, rho),
    {
        (self.t_nu.hash(nu) as u64) ^ (self.t_rho.hash(rho) as u64)
    }

    /// The part of a cell's key that place `(w, r)` in its band gives.
    pub fn area_hash(&self, w: u32, r: u32) -> (h: u64)
        ensures
            h == area_key(self@, w, r),
    {
        (self.t_w.hash(w) as u64) ^ (self.t_r.hash(r) as u64)
    }

    /// The key `z` of a cell and the hash that draws the number of its points.
    /// The key is the exclusive-or of the three parts: the hash of the coordinate,
    /// the part that the band gives and the part that the place in the band gives.
    /// The hash, divided by `2^64 - 1`, is the uniform variate to look up in the
    /// Poisson distribution.
    pub fn cell(&self, coordinate: u64, region: u64, area: u64) -> (res: (u64, u64))
        ensures
            res.0 == coordinate ^ region ^ area,
            res.1 == tab64_hash(self@.p, res.0),
    {
        let z = coordinate ^ region ^ area;
        (z, self.t_p.hash(z))
    }

    /// Point `q` of the cell with key `z`: its own key, and the numerators of
    /// the two uniform variates, each over `2^32 - 1`, that place it within the
    /// cell, first along the weight axis, then along the rank axis.
    pub fn point(&self, z: u64, q: usize) -> (res: (u64, u32, u32))
        ensures
            res.0 == point_key(z, q as u64),
            res.1 == tab64_hash(self@.q, res.0) / 0x1_0000_0000,
            res.2 == tab64_hash(self@.q, res.0) % 0x1_0000_0000,
    {
        let q = q as u64;
        let z_q = z ^ (q << 56) ^ (q << 48) ^ (q << 40) ^ (q << 32) ^ (q << 24) ^ (q << 16) ^ (q
            << 8) ^ q;
        let (u_w, u_r) = to_units(self.t_q.hash(z_q));
        (z_q, u_w, u_r)
    }

    /// The dart that the point with key `z_q` makes, if it makes one. It does
    /// when it lies strictly below the coordinate's weight `xi` and strictly
    /// below the rank bound; the dart then carries the hash of the point's key as
    /// its identity, and the point's rank.
    pub fn dart(&self, z_q: u64, weight: u64, xi: u64, rank: u64, max_rank: u64) -> (d: Option<Dart>)
        ensures
            d == if weight < xi && rank < max_rank {
                Some((tab64_hash(self@.f, z_q), rank))
            } else {
                None
            },
    {
        if weight < xi && rank < max_rank {
            Some((self.f_h.hash(z_q), rank))
        } else {
            None
        }
    }

    /// The MinHash of `darts` over `k` buckets: every dart goes to the bucket
    /// that the bucket hasher gives its identity, and every bucket keeps the dart
    /// of least rank, the earliest of them on a tie. A bucket that nothing fell
    /// into holds identity zero at infinite rank.
    pub fn minhash(&self, darts: &[Dart], k: u64) -> (mh: Vec<Dart>)
        requires
            0 < k <= usize::MAX,
        ensures
            mh@.len() == k,
            forall|j: int| 0 <= j < k ==> is_winner(
                self@.m, k, (0, INFINITY_KEY), darts@, j, #[trigger] mh@[j]),
    {
        let mut mh: Vec<Dart> = Vec::new();
        let mut j: u64 = 0;
        while j < k
            invariant
                j <= k,
                mh@.len() == j,
                forall|a: int| 0 <= a < j ==> #[trigger] mh@[a] == (0u64, INFINITY_KEY),
            decreases k - j,
        {
            mh.push((0, INFINITY_KEY));
            j += 1;
        }
        let _ = route(&self.m_h, k, &mut mh, darts);
        proof {
            assert forall|j: int| 0 <= j < k implies is_winner(
                self@.m, k, (0, INFINITY_KEY), darts@, j, #[trigger] mh@[j]) by {
                lemma_winner_of(self@.m, k, (0, INFINITY_KEY), darts@, j);
            }
        }
        mh
    }

    /// The one-bit MinHash of `darts` over `k` buckets: whether the identity of
    /// each bucket's winner is odd.
    pub fn onebit_minhash(&self, darts: &[Dart], k: u64) -> (bits: Vec<bool>)
        requires
            0 < k <= usize::MAX,
        ensures
            bits@.len() == k,
            forall|j: int, winner: Dart|
                0 <= j < k && #[trigger] is_winner(self@.m, k, (0, INFINITY_KEY), darts@, j, winner)
                    ==> bits@[j] == (winner.0 % 2 == 1),
    {
        let mh = self.minhash(darts, k);
        proof {
            assert forall|j: int, winner: Dart|
                0 <= j < k && #[trigger] is_winner(
                    self@.m, k, (0, INFINITY_KEY), darts@, j, winner) implies winner == mh@[j] by {
                lemma_winner_unique(self@.m, k, (0, INFINITY_KEY), darts@, j, winner, mh@[j]);
            }
        }
        low_bits(&mh)
    }
}

/// The one-bit form of a sketch: whether the identity in each slot is odd.
pub fn low_bits(sketch: &Vec<Dart>) -> (bits: Vec<bool>)
    ensures
        bits@.len() == sketch@.len(),
        forall|j: int| 0 <= j < sketch@.len() ==> #[trigger] bits@[j] == (sketch@[j].0 % 2 == 1),
{
    let mut bits: Vec<bool> = Vec::new();
    let mut j: usize = 0;
    while j < sketch.len()
        invariant
            j <= sketch@.len(),
            bits@.len() == j,
            forall|a: int| 0 <= a < j ==> #[trigger] bits@[a] == (sketch@[a].0 % 2 == 1),
        decreases sketch@.len() - j,
    {
        let id = sketch[j].0;
        assert(id & 1 == id % 2) by (bit_vector);
        bits.push((id & 1) == 1);
        j += 1;
    }
    bits
}

} // verus!
