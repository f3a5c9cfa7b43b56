//! The walk over the weight/rank plane that throws the darts of a vector.
//!
//! For every coordinate with weight, the walk visits the bands `(nu, rho)` of the
//! plane, in every band the columns `w` of cells along the weight axis, and in
//! every column the cells `r` along the rank axis. A band is left at the first
//! column that begins above the coordinate's weight, a column at the first cell
//! that begins above the rank bound. In every cell it draws the number of points
//! from the Poisson distribution and places each point; a point below the weight
//! and below the rank bound is a dart.
//!
//! The walk decides where to go and what to keep; where things lie in the plane
//! is arithmetic on reals, which the walk asks of its caller, one number at a
//! time: `ask` tells what is wanted, and the matching `answer_` function takes it.

use crate::darthash::{
    band_cells, band_width, cell_key, inverse_cdf, lemma_band_cells, point_key, poisson_count, region_key,
    DartHash, DartTables,
};
use crate::hash_utils::tab64_hash;
use crate::keys::{below_one, clamp_unit, is_finite_key, is_key, Dart, Weighted};
use vstd::prelude::*;
use vstd::slice::slice_to_vec;

verus! {

/// What the walk is waiting for.
#[derive(Debug, Clone, Copy, PartialEq, Eq)]
pub enum Phase {
    /// The number of weight bands of the coordinate at hand.
    Bands,
    /// Where the column at hand begins on the weight axis.
    Column,
    /// Where the cell at hand begins on the rank axis.
    Row,
    /// The uniform variate that draws the number of points of the cell at hand.
    Cell,
    /// Where the point at hand lies.
    Point,
    /// Nothing: the walk is over.
    Done,
}

/// What the walk asks of its caller.
#[derive(Debug, Clone, Copy, PartialEq, Eq)]
pub enum Ask {
    /// The largest weight band of a coordinate with this id and this weight (a
    /// key): `floor(log2(1 + t * weight))`. Answer with `answer_bands`.
    Bands { id: u64, weight: u64 },
    /// The key of the lower bound, on the weight axis, of column `w` of band
    /// `(nu, rho)`. Answer with `answer_column`.
    Column { nu: u32, rho: u32, w: u32 },
    /// The key of the lower bound, on the rank axis, of cell `r` of a column of
    /// band `(nu, rho)`. Answer with `answer_row`.
    Row { nu: u32, rho: u32, r: u32 },
    /// The key of the uniform variate `draw / (2^64 - 1)`; one that rounds to
    /// one is taken as the largest number below one. Answer with `answer_cell`.
    Cell { draw: u64 },
    /// The keys of the weight and of the rank of the point that lies `hi / (2^32
    /// - 1)` of a cell's width past the column's lower bound and `lo / (2^32 -
    /// 1)` of a cell's height past the cell's lower bound. Answer with
    /// `answer_point`.
    Point { hi: u32, lo: u32 },
    /// Nothing: the walk is over. Take the darts with `finish`.
    Done,
}

/// The first entry of `x` at or after `from` that has weight, or the length of
/// `x` if there is none.
pub open spec fn first_weighted(x: Seq<Weighted>, from: nat) -> nat
    decreases x.len() - from,
{
    if from >= x.len() {
        x.len()
    } else if x[from as int].1 > 0 {
        from
    } else {
        first_weighted(x, from + 1)
    }
}

/// A walk as a value.
pub struct WalkState {
    /// The hashers of the thrower.
    pub tables: DartTables,
    /// The vector whose darts are thrown.
    pub x: Seq<Weighted>,
    /// Key of the bound below which a rank must lie.
    pub max_rank: u64,
    /// The largest rank band.
    pub rho_upper: u32,
    /// Keys of the cumulative Poisson distribution.
    pub cdf: Seq<u64>,
    /// What the walk is waiting for.
    pub phase: Phase,
    /// Index in `x` of the coordinate at hand.
    pub n: nat,
    /// The largest weight band of the coordinate at hand.
    pub nu_upper: u32,
    /// The weight band at hand.
    pub nu: u32,
    /// The rank band at hand.
    pub rho: u32,
    /// The column at hand.
    pub w: u32,
    /// The cell at hand, within its column.
    pub r: u32,
    /// The number of points of the cell at hand.
    pub count: nat,
    /// The point at hand, within its cell.
    pub q: nat,
    /// The darts thrown so far.
    pub darts: Seq<Dart>,
}

impl WalkState {
    /// Id of the coordinate at hand.
    pub open spec fn id(self) -> u64 {
        self.x[self.n as int].0
    }

    /// Key of the weight of the coordinate at hand.
    pub open spec fn xi(self) -> u64 {
        self.x[self.n as int].1
    }

    /// Key of the cell at hand.
    pub open spec fn cell(self) -> u64 {
        cell_key(self.tables, self.id(), self.nu, self.rho, self.w, self.r)
    }

    /// Key of the point at hand.
    pub open spec fn point(self) -> u64 {
        point_key(self.cell(), self.q as u64)
    }

    /// The walk of `x` as it begins: at the first coordinate with weight, or
    /// over if there is none.
    pub open spec fn initial(
        tables: DartTables,
        x: Seq<Weighted>,
        max_rank: u64,
        rho_upper: u32,
        cdf: Seq<u64>,
    ) -> WalkState {
        (WalkState {
            tables,
            x,
            max_rank,
            rho_upper,
            cdf,
            phase: Phase::Done,
            n: 0,
            nu_upper: 0,
            nu: 0,
            rho: 0,
            w: 0,
            r: 0,
            count: 0,
            q: 0,
            darts: Seq::empty(),
        }).at_coordinate(0)
    }

    /// The walk at the first coordinate with weight at or after `from`, or over
    /// if there is none.
    pub open spec fn at_coordinate(self, from: nat) -> WalkState {
        let n = first_weighted(self.x, from);
        WalkState {
            n,
            phase: if n < self.x.len() {
                Phase::Bands
            } else {
                Phase::Done
            },
            ..self
        }
    }

    /// The walk at column `w` of band `(nu, rho)`.
    pub open spec fn at_column(self, nu: u32, rho: u32, w: u32) -> WalkState {
        WalkState { nu, rho, w, phase: Phase::Column, ..self }
    }

    /// The walk after the band at hand: at the next rank band, else at the next
    /// weight band, else at the next coordinate.
    pub open spec fn next_band(self) -> WalkState {
        if self.rho < self.rho_upper {
            self.at_column(self.nu, (self.rho + 1) as u32, 0)
        } else if self.nu < self.nu_upper {
            self.at_column((self.nu + 1) as u32, 0, 0)
        } else {
            self.at_coordinate(self.n + 1)
        }
    }

    /// The walk after the column at hand: at the next column of the band, or
    /// past the band after its last.
    pub open spec fn next_column(self) -> WalkState {
        if self.w + 1 < band_cells(self.rho) {
            self.at_column(self.nu, self.rho, (self.w + 1) as u32)
        } else {
            self.next_band()
        }
    }

    /// The walk after the cell at hand: at the next cell of the column, or past
    /// the column after its last.
    pub open spec fn next_row(self) -> WalkState {
        if self.r + 1 < band_cells(self.nu) {
            WalkState { r: (self.r + 1) as u32, phase: Phase::Row, ..self }
        } else {
            self.next_column()
        }
    }

    /// The walk once it knows the largest weight band of the coordinate at hand:
    /// at the first column of the first band.
    pub open spec fn on_bands(self, nu_upper: u32) -> WalkState {
        (WalkState { nu_upper, ..self }).at_column(0, 0, 0)
    }

    /// The walk once it knows that the column at hand begins at `w0`: past the
    /// band if that lies above the coordinate's weight, else at the column's
    /// first cell.
    pub open spec fn on_column(self, w0: u64) -> WalkState {
        if self.xi() < w0 {
            self.next_band()
        } else {
            WalkState { r: 0, phase: Phase::Row, ..self }
        }
    }

    /// The walk once it knows that the cell at hand begins at `r0`: past the
    /// column if that lies above the rank bound, else in the cell.
    pub open spec fn on_row(self, r0: u64) -> WalkState {
        if self.max_rank < r0 {
            self.next_column()
        } else {
            WalkState { phase: Phase::Cell, ..self }
        }
    }

    /// The walk once it knows the uniform variate `p` of the cell at hand: at
    /// the first of the points that `p` draws, or past the cell if it draws none.
    /// A variate that came out as one counts as the largest number below one.
    pub open spec fn on_cell(self, p: u64) -> WalkState {
        let count = inverse_cdf(self.cdf, below_one(p));
        if count == 0 {
            self.next_row()
        } else {
            WalkState { count, q: 0, phase: Phase::Point, ..self }
        }
    }

    /// The walk once it knows where the point at hand lies: the point is a dart
    /// if it lies strictly below the coordinate's weight and strictly below the
    /// rank bound, and the walk goes on to the next point of the cell, or past
    /// the cell after its last.
    pub open spec fn on_point(self, weight: u64, rank: u64) -> WalkState {
        let darts = if weight < self.xi() && rank < self.max_rank {
            self.darts.push((tab64_hash(self.tables.f, self.point()), rank))
        } else {
            self.darts
        };
        if self.q + 1 < self.count {
            WalkState { darts, q: self.q + 1, ..self }
        } else {
            (WalkState { darts, ..self }).next_row()
        }
    }

    /// What the walk asks of its caller.
    pub open spec fn ask(self) -> Ask {
        match self.phase {
            Phase::Bands => Ask::Bands { id: self.id(), weight: self.xi() },
            Phase::Column => Ask::Column { nu: self.nu, rho: self.rho, w: self.w },
            Phase::Row => Ask::Row { nu: self.nu, rho: self.rho, r: self.r },
            Phase::Cell => Ask::Cell { draw: tab64_hash(self.tables.p, self.cell()) },
            Phase::Point => Ask::Point {
                hi: (tab64_hash(self.tables.q, self.point()) / 0x1_0000_0000) as u32,
                lo: (tab64_hash(self.tables.q, self.point()) % 0x1_0000_0000) as u32,
            },
            Phase::Done => Ask::Done,
        }
    }

    /// The walk stands at a coordinate with weight unless it is over, at a
    /// column of its band and a cell of its column where it stands at one, and at
    /// a point of its cell where it stands at one; and every dart ranks below the
    /// bound.
    pub open spec fn valid(self) -> bool {
        &&& self.phase is Done ==> self.n >= self.x.len()
        &&& !(self.phase is Done) ==> self.n < self.x.len() && self.xi() > 0
        &&& (self.phase is Column || self.phase is Row || self.phase is Cell || self.phase is Point) ==> self.w
            < band_cells(self.rho)
        &&& (self.phase is Row || self.phase is Cell || self.phase is Point) ==> self.r < band_cells(self.nu)
        &&& self.phase is Point ==> self.q < self.count
        &&& forall|i: int| 0 <= i < self.darts.len() ==> (#[trigger] self.darts[i]).1 < self.max_rank
    }
}

/// The walk of one vector in progress.
pub struct DartWalk<'a> {
    dh: &'a DartHash,
    x: Vec<Weighted>,
    max_rank: u64,
    rho_upper: u32,
    cdf: Vec<u64>,
    phase: Phase,
    n: usize,
    nu_upper: u32,
    nu: u32,
    rho: u32,
    w: u32,
    r: u32,
    count: usize,
    q: usize,
    darts: Vec<Dart>,
    // what the hashers give for the place at hand
    coordinate: u64,
    region: u64,
    z: u64,
    draw: u64,
    z_q: u64,
    hi: u32,
    lo: u32,
}

impl<'a> View for DartWalk<'a> {
    type V = WalkState;

    closed spec fn view(&self) -> WalkState {
        WalkState {
            tables: self.dh@,
            x: self.x@,
            max_rank: self.max_rank,
            rho_upper: self.rho_upper,
            cdf: self.cdf@,
            phase: self.phase,
            n: self.n as nat,
            nu_upper: self.nu_upper,
            nu: self.nu,
            rho: self.rho,
            w: self.w,
            r: self.r,
            count: self.count as nat,
            q: self.q as nat,
            darts: self.darts@,
        }
    }
}

impl DartHash {
    /// Begins the walk that throws the darts of `x`: those that rank below
    /// `max_rank`, over the rank bands up to `rho_upper`, with the number of
    /// points per cell drawn from the cumulative distribution `cdf`.
    pub fn darts<'a>(&'a self, x: &[Weighted], max_rank: u64, rho_upper: u32, cdf: &[u64]) -> (walk: DartWalk<'a>)
        ensures
            walk@ == WalkState::initial(self@, x@, max_rank, rho_upper, cdf@),
            walk@.valid(),
    {
        let x = slice_to_vec(x);
        let cdf = slice_to_vec(cdf);
        let n = seek_weighted(&x, 0);
        let (phase, coordinate) = if n < x.len() {
            (Phase::Bands, self.coordinate_hash(x[n].0))
        } else {
            (Phase::Done, 0)
        };
        DartWalk {
            dh: self,
            x,
            max_rank,
            rho_upper,
            cdf,
            phase,
            n,
            nu_upper: 0,
            nu: 0,
            rho: 0,
            w: 0,
            r: 0,
            count: 0,
            q: 0,
            darts: Vec::new(),
            coordinate,
            region: 0,
            z: 0,
            draw: 0,
            z_q: 0,
            hi: 0,
            lo: 0,
        }
    }
}

/// The first entry of `x` at or after `from` that has weight, or the length of
/// `x` if there is none.
fn seek_weighted(x: &Vec<Weighted>, from: usize) -> (n: usize)
    requires
        from <= x@.len(),
    ensures
        n == first_weighted(x@, from as nat),
        from <= n <= x@.len(),
        n < x@.len() ==> x@[n as int].1 > 0,
{
    let mut n = from;
    while n < x.len() && x[n].1 == 0
        invariant
            from <= n <= x@.len(),
            first_weighted(x@, from as nat) == first_weighted(x@, n as nat),
        decreases x@.len() - n,
    {
        n += 1;
    }
    n
}

impl<'a> DartWalk<'a> {
    #[verifier::type_invariant]
    spec fn wf(&self) -> bool {
        let s = self@;
        &&& s.valid()
        &&& !(s.phase is Done) ==> self.coordinate == tab64_hash(s.tables.i, s.id())
        &&& (s.phase is Column || s.phase is Row || s.phase is Cell || s.phase is Point) ==> self.region
            == region_key(s.tables, s.nu, s.rho)
        &&& (s.phase is Cell || s.phase is Point) ==> self.z == s.cell() && self.draw == tab64_hash(
            s.tables.p,
            s.cell(),
        )
        &&& s.phase is Point ==> {
            &&& self.z_q == s.point()
            &&& self.hi == tab64_hash(s.tables.q, s.point()) / 0x1_0000_0000
            &&& self.lo == tab64_hash(s.tables.q, s.point()) % 0x1_0000_0000
        }
    }

    /// Moves to the first coordinate with weight at or after `from`.
    fn at_coordinate(self, from: usize) -> (next: DartWalk<'a>)
        requires
            from <= self@.x.len(),
        ensures
            next@ == self@.at_coordinate(from as nat),
            next@.valid(),
    {
        proof {
            use_type_invariant(&self);
        }
        let n = seek_weighted(&self.x, from);
        if n < self.x.len() {
            let coordinate = self.dh.coordinate_hash(self.x[n].0);
            DartWalk { n, phase: Phase::Bands, coordinate, ..self }
        } else {
            DartWalk { n, phase: Phase::Done, ..self }
        }
    }

    /// Moves to column `w` of band `(nu, rho)`.
    fn at_column(self, nu: u32, rho: u32, w: u32, same_band: bool) -> (next: DartWalk<'a>)
        requires
            self@.valid(),
            !(self@.phase is Done),
            w < band_cells(rho),
            same_band ==> nu == self@.nu && rho == self@.rho && !(self@.phase is Bands),
        ensures
            next@ == self@.at_column(nu, rho, w),
            next@.valid(),
    {
        proof {
            use_type_invariant(&self);
        }
        let region = if same_band {
            self.region
        } else {
            self.dh.region_hash(nu, rho)
        };
        DartWalk { nu, rho, w, phase: Phase::Column, region, ..self }
    }

    /// Leaves the band at hand.
    fn next_band(self) -> (next: DartWalk<'a>)
        requires
            self@.valid(),
            !(self@.phase is Done),
        ensures
            next@ == self@.next_band(),
            next@.valid(),
    {
        proof {
            if self@.rho < self@.rho_upper {
                lemma_band_cells((self@.rho + 1) as u32);
            }
            lemma_band_cells(0);
        }
        if self.rho < self.rho_upper {
            let nu = self.nu;
            let rho = self.rho + 1;
            self.at_column(nu, rho, 0, false)
        } else if self.nu < self.nu_upper {
            let nu = self.nu + 1;
            self.at_column(nu, 0, 0, false)
        } else {
            proof {
                use_type_invariant(&self);
            }
            let len = self.x.len();
            assert(self.n < len);
            let from = self.n + 1;
            self.at_coordinate(from)
        }
    }

    /// Leaves the column at hand.
    fn next_column(self) -> (next: DartWalk<'a>)
        requires
            self@.valid(),
            self@.phase is Column || self@.phase is Row || self@.phase is Cell || self@.phase is Point,
        ensures
            next@ == self@.next_column(),
            next@.valid(),
    {
        proof {
            lemma_band_cells(self@.rho);
        }
        if self.w + 1 < band_width(self.rho) {
            let nu = self.nu;
            let rho = self.rho;
            let w = self.w + 1;
            self.at_column(nu, rho, w, true)
        } else {
            self.next_band()
        }
    }

    /// Leaves the cell at hand.
    fn next_row(self) -> (next: DartWalk<'a>)
        requires
            self@.valid(),
            self@.phase is Row || self@.phase is Cell || self@.phase is Point,
        ensures
            next@ == self@.next_row(),
            next@.valid(),
    {
        proof {
            use_type_invariant(&self);
            lemma_band_cells(self@.nu);
        }
        if self.r + 1 < band_width(self.nu) {
            let r = self.r + 1;
            DartWalk { r, phase: Phase::Row, ..self }
        } else {
            self.next_column()
        }
    }

    /// What the walk asks of its caller.
    pub fn ask(&self) -> (ask: Ask)
        ensures
            ask == self@.ask(),
    {
        proof {
            use_type_invariant(self);
        }
        match self.phase {
            Phase::Bands => Ask::Bands { id: self.x[self.n].0, weight: self.x[self.n].1 },
            Phase::Column => Ask::Column { nu: self.nu, rho: self.rho, w: self.w },
            Phase::Row => Ask::Row { nu: self.nu, rho: self.rho, r: self.r },
            Phase::Cell => Ask::Cell { draw: self.draw },
            Phase::Point => Ask::Point { hi: self.hi, lo: self.lo },
            Phase::Done => Ask::Done,
        }
    }

    /// Takes the largest weight band of the coordinate at hand.
    pub fn answer_bands(self, nu_upper: u32) -> (next: DartWalk<'a>)
        requires
            self@.phase is Bands,
        ensures
            next@ == self@.on_bands(nu_upper),
            next@.valid(),
    {
        proof {
            use_type_invariant(&self);
            lemma_band_cells(0);
        }
        let walk = DartWalk { nu_upper, ..self };
        walk.at_column(0, 0, 0, false)
    }

    /// Takes the key of the lower bound of the column at hand.
    pub fn answer_column(self, w0: u64) -> (next: DartWalk<'a>)
        requires
            self@.phase is Column,
        ensures
            next@ == self@.on_column(w0),
            next@.valid(),
    {
        proof {
            use_type_invariant(&self);
            lemma_band_cells(self@.nu);
        }
        if self.x[self.n].1 < w0 {
            self.next_band()
        } else {
            DartWalk { r: 0, phase: Phase::Row, ..self }
        }
    }

    /// Takes the key of the lower bound of the cell at hand.
    pub fn answer_row(self, r0: u64) -> (next: DartWalk<'a>)
        requires
            self@.phase is Row,
        ensures
            next@ == self@.on_row(r0),
            next@.valid(),
    {
        proof {
            use_type_invariant(&self);
        }
        if self.max_rank < r0 {
            self.next_column()
        } else {
            let area = self.dh.area_hash(self.w, self.r);
            let (z, draw) = self.dh.cell(self.coordinate, self.region, area);
            DartWalk { z, draw, phase: Phase::Cell, ..self }
        }
    }

    /// Takes the key of the uniform variate of the cell at hand.
    pub fn answer_cell(self, p: u64) -> (next: DartWalk<'a>)
        requires
            self@.phase is Cell,
        ensures
            next@ == self@.on_cell(p),
            next@.valid(),
    {
        proof {
            use_type_invariant(&self);
        }
        let count = poisson_count(self.cdf.as_slice(), clamp_unit(p));
        if count == 0 {
            self.next_row()
        } else {
            let (z_q, hi, lo) = self.dh.point(self.z, 0);
            DartWalk { count, q: 0, z_q, hi, lo, phase: Phase::Point, ..self }
        }
    }

    /// Takes the keys of the weight and of the rank of the point at hand.
    pub fn answer_point(self, weight: u64, rank: u64) -> (next: DartWalk<'a>)
        requires
            self@.phase is Point,
        ensures
            next@ == self@.on_point(weight, rank),
            next@.valid(),
    {
        proof {
            use_type_invariant(&self);
        }
        let dart = self.dh.dart(self.z_q, weight, self.x[self.n].1, rank, self.max_rank);
        let mut darts = self.darts;
        match dart {
            Some(d) => {
                darts.push(d);
            },
            None => {},
        }
        let walk = DartWalk { darts, ..self };
        if walk.q + 1 < walk.count {
            let q = walk.q + 1;
            let (z_q, hi, lo) = walk.dh.point(walk.z, q);
            DartWalk { q, z_q, hi, lo, ..walk }
        } else {
            walk.next_row()
        }
    }

    /// The darts thrown so far, in the order in which the walk met them. Every
    /// one of them ranks below the bound, and so has a finite rank if the bound is
    /// a key.
    pub fn finish(self) -> (darts: Vec<Dart>)
        ensures
            darts@ == self@.darts,
            forall|i: int| 0 <= i < darts@.len() ==> (#[trigger] darts@[i]).1 < self@.max_rank,
            is_key(self@.max_rank) ==> forall|i: int| 0 <= i < darts@.len() ==> is_finite_key((#[trigger] darts@[i]).1),
    {
        proof {
            use_type_invariant(&self);
            assert forall|i: int| 0 <= i < self@.darts.len() implies (#[trigger] self@.darts[i]).1
                < self@.max_rank by {
                assert(self@.valid());
            }
        }
        self.darts
    }
}

} // verus!
