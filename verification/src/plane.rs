//! The darts of a vector, as the weight/rank plane defines them, and the proof
//! that the walk throws exactly those.
//!
//! The reals of the plane enter as functions: where a column begins, where a
//! cell begins, which variate a hash stands for, and where a point lies. For any
//! choice of these, `Throw::darts` lists the darts of the vector cell by cell. A
//! walk whose every ask is answered by these functions ends with that list.

use crate::darthash::{band_cells, cell_key, inverse_cdf, lemma_band_cells, point_key, DartTables};
use crate::dartwalk::{first_weighted, Phase, WalkState};
use crate::hash_utils::tab64_hash;
use crate::keys::{below_one, Dart, Weighted};
use vstd::prelude::*;

verus! {

/// The reals of the plane, each as the key of what the caller would answer.
pub struct Plane {
    /// The largest weight band of a coordinate with this id and this weight.
    pub bands: spec_fn(u64, u64) -> u32,
    /// The lower bound, on the weight axis, of column `w` of band `(nu, rho)`.
    pub column: spec_fn(u32, u32, u32) -> u64,
    /// The lower bound, on the rank axis, of cell `r` of a column of band
    /// `(nu, rho)`.
    pub row: spec_fn(u32, u32, u32) -> u64,
    /// The uniform variate that a hash stands for.
    pub unit: spec_fn(u64) -> u64,
    /// The weight and the rank of the point of cell `(w, r)` of band `(nu, rho)`
    /// with the numerators `hi` and `lo`.
    pub place: spec_fn(u32, u32, u32, u32, u32, u32) -> (u64, u64),
}

/// All that determines the darts of a vector.
pub struct Throw {
    /// The hashers of the thrower.
    pub tables: DartTables,
    /// The vector.
    pub x: Seq<Weighted>,
    /// Key of the bound below which a rank must lie.
    pub max_rank: u64,
    /// The largest rank band.
    pub rho_upper: u32,
    /// Keys of the cumulative Poisson distribution.
    pub cdf: Seq<u64>,
    /// The reals of the plane.
    pub plane: Plane,
}

impl Throw {
    /// Key of cell `(w, r)` of band `(nu, rho)` of coordinate `n`.
    pub open spec fn cell(self, n: nat, nu: nat, rho: nat, w: nat, r: nat) -> u64 {
        cell_key(self.tables, self.x[n as int].0, nu as u32, rho as u32, w as u32, r as u32)
    }

    /// The number of points of a cell, drawn by its uniform variate, which is
    /// taken as the largest number below one if it came out as one.
    pub open spec fn count(self, n: nat, nu: nat, rho: nat, w: nat, r: nat) -> nat {
        inverse_cdf(self.cdf, below_one((self.plane.unit)(tab64_hash(self.tables.p, self.cell(n, nu, rho, w, r)))))
    }

    /// The dart that point `q` of a cell makes, if it makes one: it does if it
    /// lies strictly below the coordinate's weight and strictly below the rank
    /// bound.
    pub open spec fn point(self, n: nat, nu: nat, rho: nat, w: nat, r: nat, q: nat) -> Seq<Dart> {
        let z_q = point_key(self.cell(n, nu, rho, w, r), q as u64);
        let h = tab64_hash(self.tables.q, z_q);
        let at = (self.plane.place)(
            nu as u32,
            rho as u32,
            w as u32,
            r as u32,
            (h / 0x1_0000_0000) as u32,
            (h % 0x1_0000_0000) as u32,
        );
        if at.0 < self.x[n as int].1 && at.1 < self.max_rank {
            seq![(tab64_hash(self.tables.f, z_q), at.1)]
        } else {
            Seq::empty()
        }
    }

    /// The darts of the points `q..count` of a cell.
    pub open spec fn points(self, n: nat, nu: nat, rho: nat, w: nat, r: nat, count: nat, q: nat) -> Seq<Dart>
        decreases count - q,
    {
        if q >= count {
            Seq::empty()
        } else {
            self.point(n, nu, rho, w, r, q) + self.points(n, nu, rho, w, r, count, q + 1)
        }
    }

    /// The darts of the cells of a column from cell `r` on: those of the cells up
    /// to the first that begins above the rank bound.
    pub open spec fn cells(self, n: nat, nu: nat, rho: nat, w: nat, r: nat) -> Seq<Dart>
        decreases band_cells(nu as u32) - r,
    {
        if r >= band_cells(nu as u32) || self.max_rank < (self.plane.row)(nu as u32, rho as u32, r as u32) {
            Seq::empty()
        } else {
            self.points(n, nu, rho, w, r, self.count(n, nu, rho, w, r), 0) + self.cells(n, nu, rho, w, r + 1)
        }
    }

    /// The darts of the columns of a band from column `w` on: those of the
    /// columns up to the first that begins above the coordinate's weight.
    pub open spec fn columns(self, n: nat, nu: nat, rho: nat, w: nat) -> Seq<Dart>
        decreases band_cells(rho as u32) - w,
    {
        if w >= band_cells(rho as u32) || self.x[n as int].1 < (self.plane.column)(nu as u32, rho as u32, w as u32) {
            Seq::empty()
        } else {
            self.cells(n, nu, rho, w, 0) + self.columns(n, nu, rho, w + 1)
        }
    }

    /// The darts of the bands of weight band `nu` from rank band `rho` on.
    pub open spec fn rank_bands(self, n: nat, nu: nat, rho: nat) -> Seq<Dart>
        decreases self.rho_upper + 1 - rho,
    {
        if rho > self.rho_upper {
            Seq::empty()
        } else {
            self.columns(n, nu, rho, 0) + self.rank_bands(n, nu, rho + 1)
        }
    }

    /// The darts of the weight bands of a coordinate from band `nu` on, up to
    /// band `nu_upper`.
    pub open spec fn weight_bands(self, n: nat, nu_upper: nat, nu: nat) -> Seq<Dart>
        decreases nu_upper + 1 - nu,
    {
        if nu > nu_upper {
            Seq::empty()
        } else {
            self.rank_bands(n, nu, 0) + self.weight_bands(n, nu_upper, nu + 1)
        }
    }

    /// The darts of coordinate `n`: none if it has no weight.
    pub open spec fn coordinate(self, n: nat) -> Seq<Dart> {
        if self.x[n as int].1 > 0 {
            self.weight_bands(n, (self.plane.bands)(self.x[n as int].0, self.x[n as int].1) as nat, 0)
        } else {
            Seq::empty()
        }
    }

    /// The darts of the coordinates from `n` on.
    pub open spec fn coordinates(self, n: nat) -> Seq<Dart>
        decreases self.x.len() - n,
    {
        if n >= self.x.len() {
            Seq::empty()
        } else {
            self.coordinate(n) + self.coordinates(n + 1)
        }
    }

    /// The darts of the vector: those of its coordinates in turn; of every
    /// coordinate, those of its bands, weight band by weight band and rank band
    /// by rank band; of every band, those of its columns and cells up to the
    /// first that begins above the weight or the rank bound; of every cell, those
    /// of its points that lie below both.
    pub open spec fn darts(self) -> Seq<Dart> {
        self.coordinates(0)
    }

    /// What follows the band `(nu, rho)` of coordinate `n`, whose largest weight
    /// band is `nu_upper`.
    pub open spec fn after_band(self, n: nat, nu_upper: nat, nu: nat, rho: nat) -> Seq<Dart> {
        self.rank_bands(n, nu, rho + 1) + self.weight_bands(n, nu_upper, nu + 1) + self.coordinates(n + 1)
    }

    /// What follows column `w` of a band.
    pub open spec fn after_column(self, n: nat, nu_upper: nat, nu: nat, rho: nat, w: nat) -> Seq<Dart> {
        self.columns(n, nu, rho, w + 1) + self.after_band(n, nu_upper, nu, rho)
    }

    /// What follows cell `r` of a column.
    pub open spec fn after_cell(self, n: nat, nu_upper: nat, nu: nat, rho: nat, w: nat, r: nat) -> Seq<Dart> {
        self.cells(n, nu, rho, w, r + 1) + self.after_column(n, nu_upper, nu, rho, w)
    }
}

impl WalkState {
    /// All that determines the darts of this walk, on the plane `plane`.
    pub open spec fn throw(self, plane: Plane) -> Throw {
        Throw {
            tables: self.tables,
            x: self.x,
            max_rank: self.max_rank,
            rho_upper: self.rho_upper,
            cdf: self.cdf,
            plane,
        }
    }

    /// The walk after its ask has been answered as `plane` tells.
    pub open spec fn step(self, plane: Plane) -> WalkState {
        match self.phase {
            Phase::Bands => self.on_bands((plane.bands)(self.id(), self.xi())),
            Phase::Column => self.on_column((plane.column)(self.nu, self.rho, self.w)),
            Phase::Row => self.on_row((plane.row)(self.nu, self.rho, self.r)),
            Phase::Cell => self.on_cell((plane.unit)(tab64_hash(self.tables.p, self.cell()))),
            Phase::Point => {
                let h = tab64_hash(self.tables.q, self.point());
                let at = (plane.place)(
                    self.nu,
                    self.rho,
                    self.w,
                    self.r,
                    (h / 0x1_0000_0000) as u32,
                    (h % 0x1_0000_0000) as u32,
                );
                self.on_point(at.0, at.1)
            },
            Phase::Done => self,
        }
    }

    /// The walk after `count` asks have been answered as `plane` tells.
    pub open spec fn steps(self, plane: Plane, count: nat) -> WalkState
        decreases count,
    {
        if count == 0 {
            self
        } else {
            self.step(plane).steps(plane, (count - 1) as nat)
        }
    }

    /// What the walk knows agrees with `plane`: the largest weight band of the
    /// coordinate at hand, once it stands in one, and the number of points of
    /// the cell at hand, once it stands at one.
    pub open spec fn agrees(self, plane: Plane) -> bool {
        &&& self.valid()
        &&& (self.phase is Column || self.phase is Row || self.phase is Cell || self.phase is Point) ==> {
            &&& self.nu_upper == (plane.bands)(self.id(), self.xi())
            &&& self.nu <= self.nu_upper
            &&& self.rho <= self.rho_upper
        }
        &&& self.phase is Point ==> self.count == self.throw(plane).count(
            self.n,
            self.nu as nat,
            self.rho as nat,
            self.w as nat,
            self.r as nat,
        )
    }

    /// The darts that the walk has yet to throw on the plane `plane`.
    pub open spec fn ahead(self, plane: Plane) -> Seq<Dart> {
        let t = self.throw(plane);
        let n = self.n;
        let up = self.nu_upper as nat;
        let nu = self.nu as nat;
        let rho = self.rho as nat;
        let w = self.w as nat;
        let r = self.r as nat;
        match self.phase {
            Phase::Done => Seq::empty(),
            Phase::Bands => t.coordinates(n),
            Phase::Column => t.columns(n, nu, rho, w) + t.after_band(n, up, nu, rho),
            Phase::Row => t.cells(n, nu, rho, w, r) + t.after_column(n, up, nu, rho, w),
            Phase::Cell => t.points(n, nu, rho, w, r, t.count(n, nu, rho, w, r), 0) + t.after_cell(
                n,
                up,
                nu,
                rho,
                w,
                r,
            ),
            Phase::Point => t.points(n, nu, rho, w, r, self.count, self.q) + t.after_cell(n, up, nu, rho, w, r),
        }
    }
}

/// Coordinates without weight throw no darts.
pub proof fn lemma_skip_weightless(t: Throw, from: nat)
    ensures
        t.coordinates(from) == t.coordinates(first_weighted(t.x, from)),
    decreases t.x.len() - from,
{
    if from < t.x.len() && t.x[from as int].1 == 0 {
        lemma_skip_weightless(t, from + 1);
        assert(t.coordinate(from) + t.coordinates(from + 1) =~= t.coordinates(from + 1));
    }
}

/// A walk that moves to the next coordinate with weight has the darts of all
/// coordinates from there on ahead.
pub proof fn lemma_at_coordinate(s: WalkState, plane: Plane, from: nat)
    requires
        forall|i: int| 0 <= i < s.darts.len() ==> (#[trigger] s.darts[i]).1 < s.max_rank,
    ensures
        s.at_coordinate(from).agrees(plane),
        s.at_coordinate(from).ahead(plane) == s.throw(plane).coordinates(from),
        s.at_coordinate(from).darts == s.darts,
{
    lemma_skip_weightless(s.throw(plane), from);
    lemma_first_weighted(s.x, from);
    let n = first_weighted(s.x, from);
    if n >= s.x.len() {
        assert(s.throw(plane).coordinates(n) =~= Seq::<Dart>::empty());
    }
}

/// The first entry with weight at or after `from` lies at or after `from`, and
/// has weight if it lies within the vector.
pub proof fn lemma_first_weighted(x: Seq<Weighted>, from: nat)
    ensures
        first_weighted(x, from) <= x.len(),
        from <= x.len() ==> from <= first_weighted(x, from),
        first_weighted(x, from) < x.len() ==> x[first_weighted(x, from) as int].1 > 0,
    decreases x.len() - from,
{
    if from < x.len() && x[from as int].1 == 0 {
        lemma_first_weighted(x, from + 1);
    }
}

/// A walk that leaves its band has ahead what follows the band.
pub proof fn lemma_next_band(s: WalkState, plane: Plane)
    requires
        s.agrees(plane),
        s.phase is Column || s.phase is Row || s.phase is Cell || s.phase is Point,
    ensures
        s.next_band().agrees(plane),
        s.next_band().ahead(plane) == s.throw(plane).after_band(
            s.n,
            s.nu_upper as nat,
            s.nu as nat,
            s.rho as nat,
        ),
        s.next_band().darts == s.darts,
{
    let t = s.throw(plane);
    let n = s.n;
    let up = s.nu_upper as nat;
    let nu = s.nu as nat;
    let rho = s.rho as nat;
    if s.rho < s.rho_upper {
        lemma_band_cells((s.rho + 1) as u32);
        assert(t.rank_bands(n, nu, rho + 1) == t.columns(n, nu, rho + 1, 0) + t.rank_bands(n, nu, rho + 2));
        assert(s.next_band().ahead(plane) =~= t.after_band(n, up, nu, rho));
    } else if s.nu < s.nu_upper {
        lemma_band_cells(0);
        assert(t.rank_bands(n, nu, rho + 1) =~= Seq::<Dart>::empty());
        assert(t.weight_bands(n, up, nu + 1) == t.rank_bands(n, nu + 1, 0) + t.weight_bands(n, up, nu + 2));
        assert(t.rank_bands(n, nu + 1, 0) == t.columns(n, nu + 1, 0, 0) + t.rank_bands(n, nu + 1, 1));
        assert(s.next_band().ahead(plane) =~= t.after_band(n, up, nu, rho));
    } else {
        lemma_at_coordinate(s, plane, n + 1);
        assert(t.rank_bands(n, nu, rho + 1) =~= Seq::<Dart>::empty());
        assert(t.weight_bands(n, up, nu + 1) =~= Seq::<Dart>::empty());
        assert(s.next_band().ahead(plane) =~= t.after_band(n, up, nu, rho));
    }
}

/// A walk that leaves its column has ahead what follows the column.
pub proof fn lemma_next_column(s: WalkState, plane: Plane)
    requires
        s.agrees(plane),
        s.phase is Column || s.phase is Row || s.phase is Cell || s.phase is Point,
    ensures
        s.next_column().agrees(plane),
        s.next_column().ahead(plane) == s.throw(plane).after_column(
            s.n,
            s.nu_upper as nat,
            s.nu as nat,
            s.rho as nat,
            s.w as nat,
        ),
        s.next_column().darts == s.darts,
{
    let t = s.throw(plane);
    lemma_band_cells(s.rho);
    if s.w + 1 < band_cells(s.rho) {
    } else {
        lemma_next_band(s, plane);
        assert(t.columns(s.n, s.nu as nat, s.rho as nat, (s.w + 1) as nat) =~= Seq::<Dart>::empty());
        assert(s.next_column().ahead(plane) =~= t.after_column(
            s.n,
            s.nu_upper as nat,
            s.nu as nat,
            s.rho as nat,
            s.w as nat,
        ));
    }
}

/// A walk that leaves its cell has ahead what follows the cell.
pub proof fn lemma_next_row(s: WalkState, plane: Plane)
    requires
        s.agrees(plane),
        s.phase is Row || s.phase is Cell || s.phase is Point,
    ensures
        s.next_row().agrees(plane),
        s.next_row().ahead(plane) == s.throw(plane).after_cell(
            s.n,
            s.nu_upper as nat,
            s.nu as nat,
            s.rho as nat,
            s.w as nat,
            s.r as nat,
        ),
        s.next_row().darts == s.darts,
{
    let t = s.throw(plane);
    lemma_band_cells(s.nu);
    if s.r + 1 < band_cells(s.nu) {
    } else {
        lemma_next_column(s, plane);
        assert(t.cells(s.n, s.nu as nat, s.rho as nat, s.w as nat, (s.r + 1) as nat) =~= Seq::<Dart>::empty());
        assert(s.next_row().ahead(plane) =~= t.after_cell(
            s.n,
            s.nu_upper as nat,
            s.nu as nat,
            s.rho as nat,
            s.w as nat,
            s.r as nat,
        ));
    }
}

/// A walk begins with all the darts of its vector ahead.
pub proof fn lemma_initial_ahead(
    tables: DartTables,
    x: Seq<Weighted>,
    max_rank: u64,
    rho_upper: u32,
    cdf: Seq<u64>,
    plane: Plane,
)
    ensures
        WalkState::initial(tables, x, max_rank, rho_upper, cdf).agrees(plane),
        WalkState::initial(tables, x, max_rank, rho_upper, cdf).darts.len() == 0,
        WalkState::initial(tables, x, max_rank, rho_upper, cdf).ahead(plane) == WalkState::initial(
            tables,
            x,
            max_rank,
            rho_upper,
            cdf,
        ).throw(plane).darts(),
{
    let s = WalkState::initial(tables, x, max_rank, rho_upper, cdf);
    let blank = WalkState { phase: Phase::Done, n: 0, ..s };
    assert(s == blank.at_coordinate(0));
    lemma_at_coordinate(blank, plane, 0);
}

/// The step of a walk that waits for the bands of a coordinate.
proof fn lemma_step_bands(s: WalkState, plane: Plane)
    requires
        s.agrees(plane),
        s.phase is Bands,
    ensures
        s.step(plane).agrees(plane),
        s.step(plane).darts == s.darts,
        s.step(plane).ahead(plane) == s.ahead(plane),
{
    let t = s.throw(plane);
    let n = s.n;
    let up = (plane.bands)(s.id(), s.xi()) as nat;
    lemma_band_cells(0);
    assert(t.coordinates(n) == t.coordinate(n) + t.coordinates(n + 1));
    assert(t.weight_bands(n, up, 0) == t.rank_bands(n, 0, 0) + t.weight_bands(n, up, 1));
    assert(t.rank_bands(n, 0, 0) == t.columns(n, 0, 0, 0) + t.rank_bands(n, 0, 1));
    assert(s.step(plane).ahead(plane) =~= s.ahead(plane));
}

/// The step of a walk that waits for the lower bound of a column.
proof fn lemma_step_column(s: WalkState, plane: Plane)
    requires
        s.agrees(plane),
        s.phase is Column,
    ensures
        s.step(plane).agrees(plane),
        s.step(plane).darts == s.darts,
        s.step(plane).ahead(plane) == s.ahead(plane),
{
    let t = s.throw(plane);
    let n = s.n;
    let nu = s.nu as nat;
    let rho = s.rho as nat;
    let w = s.w as nat;
    lemma_band_cells(s.nu);
    if s.xi() < (plane.column)(s.nu, s.rho, s.w) {
        lemma_next_band(s, plane);
        assert(t.columns(n, nu, rho, w) =~= Seq::<Dart>::empty());
    } else {
        assert(t.columns(n, nu, rho, w) == t.cells(n, nu, rho, w, 0) + t.columns(n, nu, rho, w + 1));
    }
    assert(s.step(plane).ahead(plane) =~= s.ahead(plane));
}

/// The step of a walk that waits for the lower bound of a cell.
proof fn lemma_step_row(s: WalkState, plane: Plane)
    requires
        s.agrees(plane),
        s.phase is Row,
    ensures
        s.step(plane).agrees(plane),
        s.step(plane).darts == s.darts,
        s.step(plane).ahead(plane) == s.ahead(plane),
{
    let t = s.throw(plane);
    let n = s.n;
    let nu = s.nu as nat;
    let rho = s.rho as nat;
    let w = s.w as nat;
    let r = s.r as nat;
    if s.max_rank < (plane.row)(s.nu, s.rho, s.r) {
        lemma_next_column(s, plane);
        assert(t.cells(n, nu, rho, w, r) =~= Seq::<Dart>::empty());
    } else {
        assert(t.cells(n, nu, rho, w, r) == t.points(n, nu, rho, w, r, t.count(n, nu, rho, w, r), 0) + t.cells(
            n,
            nu,
            rho,
            w,
            r + 1,
        ));
    }
    assert(s.step(plane).ahead(plane) =~= s.ahead(plane));
}

/// The step of a walk that waits for the variate of a cell.
proof fn lemma_step_cell(s: WalkState, plane: Plane)
    requires
        s.agrees(plane),
        s.phase is Cell,
    ensures
        s.step(plane).agrees(plane),
        s.step(plane).darts == s.darts,
        s.step(plane).ahead(plane) == s.ahead(plane),
{
    let t = s.throw(plane);
    let count = t.count(s.n, s.nu as nat, s.rho as nat, s.w as nat, s.r as nat);
    if count == 0 {
        lemma_next_row(s, plane);
        assert(t.points(s.n, s.nu as nat, s.rho as nat, s.w as nat, s.r as nat, count, 0) =~= Seq::<Dart>::empty());
    }
    assert(s.step(plane).ahead(plane) =~= s.ahead(plane));
}

/// The step of a walk that waits for the place of a point.
proof fn lemma_step_point(s: WalkState, plane: Plane)
    requires
        s.agrees(plane),
        s.phase is Point,
    ensures
        s.step(plane).agrees(plane),
        s.step(plane).darts + s.step(plane).ahead(plane) == s.darts + s.ahead(plane),
{
    let t = s.throw(plane);
    let n = s.n;
    let nu = s.nu as nat;
    let rho = s.rho as nat;
    let w = s.w as nat;
    let r = s.r as nat;
    let next = s.step(plane);
    let thrown = t.point(n, nu, rho, w, r, s.q);
    let h = tab64_hash(s.tables.q, s.point());
    let at = (plane.place)(s.nu, s.rho, s.w, s.r, (h / 0x1_0000_0000) as u32, (h % 0x1_0000_0000) as u32);
    let darts = if at.0 < s.xi() && at.1 < s.max_rank {
        s.darts.push((tab64_hash(s.tables.f, s.point()), at.1))
    } else {
        s.darts
    };
    assert(darts =~= s.darts + thrown);
    let kept = WalkState { darts, ..s };
    assert(t.points(n, nu, rho, w, r, s.count, s.q) == thrown + t.points(n, nu, rho, w, r, s.count, s.q + 1));
    assert(kept.agrees(plane)) by {
        assert forall|i: int| 0 <= i < kept.darts.len() implies (#[trigger] kept.darts[i]).1 < kept.max_rank by {
            if i < s.darts.len() {
                assert(kept.darts[i] == s.darts[i]);
            }
        }
    }
    if s.q + 1 < s.count {
        assert(next.darts + next.ahead(plane) =~= s.darts + s.ahead(plane));
    } else {
        lemma_next_row(kept, plane);
        assert(next == kept.next_row());
        assert(t.points(n, nu, rho, w, r, s.count, s.q + 1) =~= Seq::<Dart>::empty());
        assert(next.darts + next.ahead(plane) =~= s.darts + s.ahead(plane));
    }
}

/// Answering a walk as the plane tells moves darts from those ahead to those
/// thrown, and leaves their sum as it was.
pub proof fn lemma_step(s: WalkState, plane: Plane)
    requires
        s.agrees(plane),
    ensures
        s.step(plane).agrees(plane),
        s.step(plane).throw(plane) == s.throw(plane),
        s.step(plane).darts + s.step(plane).ahead(plane) == s.darts + s.ahead(plane),
{
    match s.phase {
        Phase::Done => {},
        Phase::Bands => {
            lemma_step_bands(s, plane);
        },
        Phase::Column => {
            lemma_step_column(s, plane);
        },
        Phase::Row => {
            lemma_step_row(s, plane);
        },
        Phase::Cell => {
            lemma_step_cell(s, plane);
        },
        Phase::Point => {
            lemma_step_point(s, plane);
        },
    }
    lemma_step_keeps_throw(s, plane);
}

/// A step changes nothing of what determines the darts.
proof fn lemma_step_keeps_throw(s: WalkState, plane: Plane)
    ensures
        s.step(plane).throw(plane) == s.throw(plane),
{
    lemma_moves_keep_throw(s, plane);
    let h = tab64_hash(s.tables.q, s.point());
    let at = (plane.place)(s.nu, s.rho, s.w, s.r, (h / 0x1_0000_0000) as u32, (h % 0x1_0000_0000) as u32);
    let darts = if at.0 < s.xi() && at.1 < s.max_rank {
        s.darts.push((tab64_hash(s.tables.f, s.point()), at.1))
    } else {
        s.darts
    };
    lemma_moves_keep_throw(WalkState { darts, ..s }, plane);
    lemma_moves_keep_throw(WalkState { nu_upper: (plane.bands)(s.id(), s.xi()), ..s }, plane);
}

/// Moving on changes nothing of what determines the darts.
proof fn lemma_moves_keep_throw(s: WalkState, plane: Plane)
    ensures
        s.next_band().throw(plane) == s.throw(plane),
        s.next_column().throw(plane) == s.throw(plane),
        s.next_row().throw(plane) == s.throw(plane),
        forall|from: nat| (#[trigger] s.at_coordinate(from)).throw(plane) == s.throw(plane),
        forall|nu: u32, rho: u32, w: u32| (#[trigger] s.at_column(nu, rho, w)).throw(plane) == s.throw(plane),
{
}

/// Any number of steps leaves the sum of the darts thrown and the darts
/// ahead as it was.
pub proof fn lemma_steps(s: WalkState, plane: Plane, count: nat)
    requires
        s.agrees(plane),
    ensures
        s.steps(plane, count).agrees(plane),
        s.steps(plane, count).throw(plane) == s.throw(plane),
        s.steps(plane, count).darts + s.steps(plane, count).ahead(plane) == s.darts + s.ahead(plane),
    decreases count,
{
    if count > 0 {
        lemma_step(s, plane);
        lemma_steps(s.step(plane), plane, (count - 1) as nat);
    }
}

/// The walk throws the darts of the vector: begun on a vector and answered as
/// the plane tells at every step, it has thrown, once it is over, exactly the
/// darts that the plane defines, in their order.
pub proof fn lemma_walk_throws_the_darts(
    tables: DartTables,
    x: Seq<Weighted>,
    max_rank: u64,
    rho_upper: u32,
    cdf: Seq<u64>,
    plane: Plane,
    count: nat,
)
    requires
        WalkState::initial(tables, x, max_rank, rho_upper, cdf).steps(plane, count).phase is Done,
    ensures
        WalkState::initial(tables, x, max_rank, rho_upper, cdf).steps(plane, count).darts == (Throw {
            tables,
            x,
            max_rank,
            rho_upper,
            cdf,
            plane,
        }).darts(),
{
    let begin = WalkState::initial(tables, x, max_rank, rho_upper, cdf);
    let end = begin.steps(plane, count);
    lemma_initial_ahead(tables, x, max_rank, rho_upper, cdf, plane);
    lemma_steps(begin, plane, count);
    assert(begin.darts + begin.ahead(plane) =~= begin.ahead(plane));
    assert(end.darts + end.ahead(plane) =~= end.darts);
}

} // verus!
