use std::collections::HashSet;

use dartminhash::darthash::DartHash;
use dartminhash::dartwalk::Ask;
use dartminhash::dartminhash::DartMinHash;
use dartminhash::keys::clamp_unit;
use dartminhash::rejsmp::{ErsWmh, RedGreenIndex};
use dartminhash::similarity::{count_collisions, intersection};
use mt19937::{Seed, MT19937};
use rand_core::{Rng, SeedableRng};

type MtRng = MT19937;

fn mt_from_seed(seed64: u64) -> MT19937 {
    let mut seed_arr = [0u32; mt19937::N];
    seed_arr[0] = (seed64 & 0xFFFF_FFFF) as u32;
    seed_arr[1] = (seed64 >> 32) as u32;
    let seed = Seed(seed_arr);
    MT19937::from_seed(seed)
}

fn key(w: f64) -> u64 {
    if w > 0.0 {
        w.to_bits()
    } else {
        0
    }
}

fn keyed(x: &[(u64, f64)]) -> Vec<(u64, u64)> {
    x.iter().map(|&(i, w)| (i, key(w))).collect()
}

fn below_one(u: f64) -> f64 {
    f64::from_bits(clamp_unit(u.to_bits()))
}

fn to_unit(x: u64) -> f64 {
    below_one((x as f64) / 18446744073709551615.0)
}

fn weight(x: &[(u64, f64)]) -> f64 {
    x.iter().map(|&(_, w)| w).sum()
}

fn jaccard_similarity(x: &[(u64, f64)], y: &[(u64, f64)]) -> f64 {
    let shared = intersection(&keyed(x), &keyed(y));
    let s: f64 = shared.iter().map(|&(_, w)| f64::from_bits(w)).sum();
    let wx = weight(x);
    let wy = weight(y);
    s / (wx + wy - s)
}

fn jaccard_estimate_from_minhashes(x: &[(u64, f64)], y: &[(u64, f64)]) -> f64 {
    count_collisions(x, y).unwrap() as f64 / x.len() as f64
}

/// The reals around a dart thrower: powers of two and the Poisson(1) distribution.
struct Thrower {
    powers_of_two: Vec<f64>,
    neg_powers_of_two: Vec<f64>,
    poisson_cdf: Vec<u64>,
}

impl Thrower {
    fn new() -> Self {
        let mut pow2 = Vec::with_capacity(1000);
        let mut p = 1.0;
        for _ in 0..1000 {
            pow2.push(p);
            p *= 2.0;
        }
        let mut neg_pow2 = Vec::with_capacity(1000);
        let mut q = 1.0;
        for _ in 0..1000 {
            neg_pow2.push(q);
            q *= 0.5;
        }
        let mut poisson_cdf = Vec::with_capacity(100);
        let mut pdf = (-1.0f64).exp();
        let mut cdf = pdf;
        for i in 0..100 {
            poisson_cdf.push(cdf.to_bits());
            pdf = pdf / ((i + 1) as f64);
            cdf += pdf;
        }
        Thrower { powers_of_two: pow2, neg_powers_of_two: neg_pow2, poisson_cdf }
    }

    /// The darts of `x` at `theta`: the walk decides, the reals are worked out here.
    fn darts(&self, dh: &DartHash, x: &[(u64, f64)], theta: f64) -> Vec<(u64, u64)> {
        let t = dh.t();
        let total_w = weight(x);
        if total_w == 0.0 {
            return Vec::new();
        }
        let max_rank = theta / total_w;
        let t_inv = 1.0 / (t as f64);
        let rho_upper = ((1.0 + max_rank).log2().floor()).max(0.0) as u32;

        let mut walk = dh.darts(&keyed(x), max_rank.to_bits(), rho_upper, &self.poisson_cdf);
        let (mut w0, mut r0, mut r_base) = (0.0f64, 0.0f64, 0.0f64);
        let (mut delta_nu, mut delta_rho) = (0.0f64, 0.0f64);
        loop {
            walk = match walk.ask() {
                Ask::Done => break,
                Ask::Bands { weight, .. } => {
                    let xi = f64::from_bits(weight);
                    let nu_upper = ((1.0 + (t as f64) * xi).log2().floor()).max(0.0) as u32;
                    walk.answer_bands(nu_upper)
                }
                Ask::Column { nu, rho, w } => {
                    if w == 0 {
                        let two_nu = self.powers_of_two[nu as usize];
                        let two_rho = self.powers_of_two[rho as usize];
                        w0 = (two_nu - 1.0) * t_inv;
                        r_base = two_rho - 1.0;
                        delta_nu = two_nu * t_inv * self.neg_powers_of_two[rho as usize];
                        delta_rho = two_rho * self.neg_powers_of_two[nu as usize];
                    } else {
                        w0 += delta_nu;
                    }
                    walk.answer_column(w0.to_bits())
                }
                Ask::Row { r, .. } => {
                    if r == 0 {
                        r0 = r_base;
                    } else {
                        r0 += delta_rho;
                    }
                    walk.answer_row(r0.to_bits())
                }
                Ask::Cell { draw } => walk.answer_cell(to_unit(draw).to_bits()),
                Ask::Point { hi, lo } => {
                    let u_w = below_one((hi as f64) / 4294967295.0);
                    let u_r = below_one((lo as f64) / 4294967295.0);
                    let weight = w0 + delta_nu * u_w;
                    let rank = r0 + delta_rho * u_r;
                    walk.answer_point(weight.to_bits(), rank.to_bits())
                }
            };
        }
        walk.finish()
    }
}

struct Sketcher {
    dm: DartMinHash,
    thrower: Thrower,
}

impl Sketcher {
    fn new_mt(rng: &mut MtRng, k: u64) -> Self {
        let t = ((k as f64) * (k as f64).ln() + 2.0 * (k as f64)).ceil() as u64;
        Sketcher { dm: DartMinHash::new_mt(rng, k, t), thrower: Thrower::new() }
    }

    fn sketch(&self, x: &[(u64, f64)]) -> Vec<(u64, f64)> {
        let mut run = self.dm.sketch(&keyed(x));
        while !run.is_done() {
            let theta = run.theta_halves() as f64 * 0.5;
            let darts = self.thrower.darts(self.dm.dart_hash(), x, theta);
            run = run.advance(&darts);
        }
        run.finish()
            .into_iter()
            .map(|(id, rank)| (id, f64::from_bits(rank)))
            .collect()
    }
}

fn uniform01(rng: &mut MtRng) -> f64 {
    mt19937::gen_res53(rng)
}

/// Generate a random weighted set: `l0` distinct random ids, and as weights the
/// gaps between `l0 - 1` sorted uniforms, scaled by `l1`. The ids take their
/// weights in the order in which they were drawn. Returns sorted by id.
fn generate_weighted_set(l0: u64, l1: f64, rng: &mut MtRng) -> Vec<(u64, f64)> {
    let mut seen = HashSet::with_capacity(l0 as usize);
    let mut elements = Vec::with_capacity(l0 as usize);
    while elements.len() < l0 as usize {
        let id = rng.next_u64();
        if seen.insert(id) {
            elements.push(id);
        }
    }
    let mut z: Vec<f64> = (0..(l0 - 1)).map(|_| uniform01(rng)).collect();
    z.push(1.0);
    z.sort_by(|a, b| a.partial_cmp(b).unwrap());

    let mut prev = 0.0;
    let mut j = 0usize;
    let mut out: Vec<(u64, f64)> = Vec::with_capacity(l0 as usize);
    for idx in elements {
        let w = l1 * (z[j] - prev);
        out.push((idx, w));
        prev = z[j];
        j += 1;
    }
    out.sort_by_key(|p| p.0);
    out
}

fn generate_similar_weighted_set(
    x: &[(u64, f64)],
    relative_overlap: f64,
    rng: &mut MtRng,
) -> Vec<(u64, f64)> {
    let mut free_id;
    'find_id: loop {
        free_id = rng.next_u64();
        if x.binary_search_by_key(&free_id, |p| p.0).is_err() {
            break 'find_id;
        }
    }
    let mut excess = 0.0;
    let mut y = Vec::with_capacity(x.len() + 1);
    for &(id, w) in x {
        let w_scaled = w * relative_overlap;
        excess += w - w_scaled;
        y.push((id, w_scaled));
    }
    y.push((free_id, excess));
    y.sort_by_key(|p| p.0);
    y
}

#[test]
fn dartminhash_approximates_weighted_jaccard() {
    let mut rng = mt_from_seed(1337);

    let l0 = 50_000;
    let l1 = 10_000.0;
    let k = 4096;

    let dm = Sketcher::new_mt(&mut rng, k);

    let x = generate_weighted_set(l0, l1, &mut rng);
    assert_eq!(x.len(), l0 as usize);
    // the sketch of x is the same in every round
    let sk_x = dm.sketch(&x);

    let targets = [
        0.99, 0.96, 0.93, 0.9, 0.85, 0.8, 0.75, 0.7, 0.65, 0.6, 0.55, 0.5, 0.4, 0.3, 0.2, 0.1,
        0.05, 0.01,
    ];

    for &rel in &targets {
        let y = generate_similar_weighted_set(&x, rel, &mut rng);

        let j_true = jaccard_similarity(&x, &y);
        let tol = 1.0 / (k as f64).sqrt();
        println!("true weighted Jaccard: {:?}", j_true);
        let sk_y = dm.sketch(&y);
        assert_eq!(sk_x.len(), k as usize);
        assert_eq!(sk_y.len(), k as usize);

        let j_est = jaccard_estimate_from_minhashes(&sk_x, &sk_y);
        println!("estimated weighted Jaccard: {:?}", j_est);
        let err = (j_true - j_est).abs();
        assert!(
            err <= tol as f64,
            "rel_overlap={rel}, true={j_true:.4}, est={j_est:.4}, err={err:.4} > tol={tol}"
        );
    }
}

#[test]
fn dart_sketch_is_full_repeatable_and_matches_itself() {
    let mut rng = mt_from_seed(99);
    let k = 256;
    let dm = Sketcher::new_mt(&mut rng, k);
    let x = generate_weighted_set(2_000, 50.0, &mut rng);
    let first = dm.sketch(&x);
    let second = dm.sketch(&x);
    assert_eq!(first.len(), k as usize);
    assert_eq!(first, second);
    for slot in &first {
        assert!(slot.1.is_finite());
    }
    assert_eq!(jaccard_estimate_from_minhashes(&first, &second), 1.0);
    let darts = dm.thrower.darts(dm.dm.dart_hash(), &x, 1.0);
    assert_eq!(darts, dm.thrower.darts(dm.dm.dart_hash(), &x, 1.0));
    let total = weight(&x);
    for &(_, rank) in &darts {
        assert!(f64::from_bits(rank) < 1.0 / total);
    }
}

#[test]
fn dart_sketch_of_the_zero_vector_is_the_placeholder_sketch() {
    let mut rng = mt_from_seed(5);
    let dm = Sketcher::new_mt(&mut rng, 32);
    for x in [vec![], vec![(4u64, 0.0f64), (8, 0.0)]] {
        let sketch = dm.sketch(&x);
        assert_eq!(sketch, vec![(0u64, f64::INFINITY); 32]);
    }
}

struct Ers {
    ers: ErsWmh,
}

impl Ers {
    fn new_mt(rng: &mut MtRng, caps: &[f64], k: u64) -> Self {
        let mut cum = Vec::with_capacity(caps.len() + 1);
        cum.push(0.0f64.to_bits());
        let mut acc = 0.0f64;
        for &mi in caps {
            acc += mi;
            cum.push(acc.to_bits());
        }
        let index = RedGreenIndex::from_cumulative(cum).expect("caps must be non-negative");
        Ers { ers: ErsWmh::new_mt(rng, index, k) }
    }

    fn sketch(&self, x: &[(u64, f64)], max_attempts: Option<u64>) -> Vec<(u64, f64)> {
        let m = f64::from_bits(self.ers.index().m_total());
        let mut scan = self.ers.sketch(&keyed(x), max_attempts);
        while let Some(draw) = scan.next_draw() {
            let u = to_unit(draw);
            let r = m * u;
            let (_, base, xi) = scan.covering(r.to_bits());
            let green = r < f64::from_bits(base) + f64::from_bits(xi);
            scan = scan.report(if green { Some(r.to_bits()) } else { None });
        }
        scan.finish()
            .into_iter()
            .map(|(id, attempt)| match attempt {
                Some(t) => (id, t as f64),
                None => (id, f64::INFINITY),
            })
            .collect()
    }
}

/// Generate a random weighted set with ids in [0, d), the ids taking their
/// weights in the order in which they were drawn.
fn generate_bounded_weighted_set(d: usize, l0: u64, l1: f64, rng: &mut MtRng) -> Vec<(u64, f64)> {
    let mut seen = HashSet::with_capacity(l0 as usize);
    let mut elements = Vec::with_capacity(l0 as usize);
    while elements.len() < l0 as usize {
        let id = ((rng.next_u64() as usize) % d) as u64;
        if seen.insert(id) {
            elements.push(id);
        }
    }
    let mut z: Vec<f64> = (0..(l0 - 1)).map(|_| uniform01(rng)).collect();
    z.push(1.0);
    z.sort_by(|a, b| a.partial_cmp(b).unwrap());

    let mut prev = 0.0;
    let mut j = 0usize;
    let mut out: Vec<(u64, f64)> = Vec::with_capacity(l0 as usize);
    for idx in elements {
        let w = l1 * (z[j] - prev);
        out.push((idx, w.max(0.0)));
        prev = z[j];
        j += 1;
    }
    out.sort_by_key(|p| p.0);
    out
}

fn generate_similar_bounded_weighted_set(
    d: usize,
    x: &[(u64, f64)],
    relative_overlap: f64,
    rng: &mut MtRng,
) -> Vec<(u64, f64)> {
    let free_id: u64 = loop {
        let cand = (rng.next_u64() as usize) % d;
        if x.binary_search_by_key(&(cand as u64), |p| p.0).is_err() {
            break cand as u64;
        }
    };
    let mut excess = 0.0;
    let mut y = Vec::with_capacity(x.len() + 1);
    for &(id, w) in x {
        let w_scaled = w * relative_overlap;
        excess += w - w_scaled;
        y.push((id, w_scaled.max(0.0)));
    }
    if excess > 0.0 {
        y.push((free_id, excess));
    }
    y.sort_by_key(|p| p.0);
    y
}

fn caps_from_sets(d: usize, sets: &[&[(u64, f64)]]) -> Vec<f64> {
    let mut m = vec![0.0f64; d];
    for s in sets {
        for &(id, w) in *s {
            if w > 0.0 {
                let idx = id as usize;
                if w > m[idx] {
                    m[idx] = w;
                }
            }
        }
    }
    m
}

#[test]
fn ers_early_stop_fills_all_buckets() {
    let mut rng = mt_from_seed(1337);
    let d = 200_000usize;
    let k = 4096;

    let x = generate_bounded_weighted_set(d, 50_000, 10_000.0, &mut rng);
    let m = caps_from_sets(d, &[&x]);
    let ers = Ers::new_mt(&mut rng, &m, k as u64);

    let l: u64 = 512;
    let sk = ers.sketch(&x, Some(l));

    assert_eq!(sk.len(), k);
}

#[test]
fn ers_approximates_weighted_jaccard() {
    let mut rng = mt_from_seed(8675309);
    let d = 200_000usize;
    let k = 4096;

    let l: u64 = 1024;

    let l0 = 50_000u64;
    let l1 = 10_000.0;
    let x = generate_bounded_weighted_set(d, l0, l1, &mut rng);
    let targets = [
        0.99, 0.96, 0.93, 0.9, 0.85, 0.8, 0.75, 0.7, 0.65, 0.6, 0.55, 0.5, 0.4, 0.3, 0.2, 0.1,
        0.05, 0.01,
    ];

    for &rel in &targets {
        let y = generate_similar_bounded_weighted_set(d, &x, rel, &mut rng);
        let j_true = jaccard_similarity(&x, &y);
        println!("true weighted Jaccard: {:?}", j_true);
        let m_per_dim = caps_from_sets(d, &[&x, &y]);

        let ers = Ers::new_mt(&mut rng, &m_per_dim, k as u64);

        let sk_x = ers.sketch(&x, Some(l));
        let sk_y = ers.sketch(&y, Some(l));

        let hits = sk_x.iter().zip(&sk_y).filter(|(a, b)| a.0 == b.0).count();
        let j_est = hits as f64 / k as f64;
        println!("estimated weighted Jaccard: {:?}", j_est);
        let sd = (j_true * (1.0 - j_true) / (k as f64)).sqrt();
        let tol = (3.2 * sd).max(1.25 / (k as f64).sqrt());
        let err = (j_true - j_est).abs();
        assert!(
            err <= tol,
            "rel={rel:.3}, true={j_true:.6}, est={j_est:.6}, err={err:.6}, tol={tol:.6}"
        );
    }
}

#[test]
fn ers_sketch_is_full_repeatable_and_matches_itself() {
    let mut rng = mt_from_seed(17);
    let d = 5_000usize;
    let k = 128;
    let x = generate_bounded_weighted_set(d, 1_000, 100.0, &mut rng);
    let m = caps_from_sets(d, &[&x]);
    let ers = Ers::new_mt(&mut rng, &m, k as u64);
    let first = ers.sketch(&x, None);
    let second = ers.sketch(&x, None);
    assert_eq!(first.len(), k);
    assert_eq!(first, second);
    for slot in &first {
        assert!(slot.1 >= 1.0 && slot.1 <= 1024.0);
    }
    assert_eq!(count_collisions(&first, &second), Ok(k as u64));
}

#[test]
fn ers_sketch_of_the_zero_vector_is_the_fallback_sketch() {
    let mut rng = mt_from_seed(17);
    let ers = Ers::new_mt(&mut rng, &[1.0, 2.0, 0.5], 16);
    let sketch = ers.sketch(&[(1, 0.0)], Some(64));
    assert_eq!(sketch.len(), 16);
    for (j, slot) in sketch.iter().enumerate() {
        assert_eq!(slot.0 & 0xffff_ffff, j as u64);
        assert_eq!(slot.1, f64::INFINITY);
    }
    assert_eq!(sketch, ers.sketch(&[], Some(64)));
}

#[test]
fn ers_scans_up_to_a_limit_beyond_32_bits() {
    let mut rng = mt_from_seed(7);
    let ers = Ers::new_mt(&mut rng, &[1.0, 2.0], 4);
    let x = vec![(0u64, 1.0), (1u64, 2.0)];
    // the vector fills its capacities, so every position is green and every
    // slot accepts its first attempt, whatever the limit allows beyond it
    let result = ers.sketch(&x, Some(1u64 << 32));
    assert_eq!(result.len(), 4);
    assert!(result.iter().all(|d| d.1 == 1.0));
    assert_eq!(result, ers.sketch(&x, Some(5)));
    assert_eq!(result, ers.sketch(&x, Some(u64::MAX)));
    assert_eq!(result, ers.sketch(&x, Some(u32::MAX as u64)));
}

#[test]
fn a_coordinate_without_weight_is_never_green() {
    let mut rng = mt_from_seed(7);
    let ers = Ers::new_mt(&mut rng, &[1.0, 2.0], 8);
    // only the second coordinate has weight: every accepted position lies in
    // its interval, two thirds of the line
    let keyed_x = keyed(&[(1, 2.0)]);
    let m = f64::from_bits(ers.ers.index().m_total());
    let mut scan = ers.ers.sketch(&keyed_x, Some(64));
    let mut greens = 0;
    while let Some(draw) = scan.next_draw() {
        let r = m * to_unit(draw);
        let (i, base, xi) = scan.covering(r.to_bits());
        let green = r < f64::from_bits(base) + f64::from_bits(xi);
        assert_eq!(green, i == 1);
        if green {
            greens += 1;
        }
        scan = scan.report(if green { Some(r.to_bits()) } else { None });
    }
    assert_eq!(greens, 8);
}
