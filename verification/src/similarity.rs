//! Comparing weighted vectors and finished sketches.
//!
//! What is counted or selected is decided here; the sums and quotients over
//! reals that turn those into similarities are the caller's part.

use crate::keys::{ascending_ids, Weighted};
use vstd::prelude::*;

verus! {

/// Why two sketches cannot be compared.
#[derive(Debug, Clone, Copy, PartialEq, Eq)]
pub enum SketchError {
    /// The two sketches differ in length.
    LengthMismatch { left: usize, right: usize },
}

/// The smaller of two keys.
pub open spec fn min_key(a: u64, b: u64) -> u64 {
    if a < b {
        a
    } else {
        b
    }
}

/// Coordinate `id` is present in both `x` and `y`, and `w` is the smaller of
/// its two weights.
pub open spec fn shared(x: Seq<Weighted>, y: Seq<Weighted>, id: u64, w: u64) -> bool {
    exists|a: int, b: int|
        0 <= a < x.len() && 0 <= b < y.len() && (#[trigger] x[a]).0 == id && (#[trigger] y[b]).0 == id && w
            == min_key(x[a].1, y[b].1)
}

/// The number of positions at which two sketches carry the same identity.
pub open spec fn collisions<R>(x: Seq<(u64, R)>, y: Seq<(u64, R)>) -> nat
    decreases x.len(),
{
    if x.len() == 0 || y.len() == 0 {
        0
    } else {
        collisions(x.drop_last(), y.drop_last()) + if x.last().0 == y.last().0 {
            1nat
        } else {
            0nat
        }
    }
}

/// The number of positions at which two one-bit sketches differ.
pub open spec fn hamming(x: Seq<bool>, y: Seq<bool>) -> nat
    decreases x.len(),
{
    if x.len() == 0 || y.len() == 0 {
        0
    } else {
        hamming(x.drop_last(), y.drop_last()) + if x.last() != y.last() {
            1nat
        } else {
            0nat
        }
    }
}

/// The intersection of two weighted vectors: the coordinates present in both,
/// in ascending order, each with the smaller of its two weights. The sum of its
/// weights is the intersection mass of `x` and `y`.
pub fn intersection(x: &[Weighted], y: &[Weighted]) -> (out: Vec<Weighted>)
    requires
        ascending_ids(x@),
        ascending_ids(y@),
    ensures
        ascending_ids(out@),
        forall|id: u64, w: u64| out@.contains((id, w)) <==> shared(x@, y@, id, w),
{
    let mut out: Vec<Weighted> = Vec::new();
    let mut i: usize = 0;
    let mut j: usize = 0;
    while i < x.len() && j < y.len()
        invariant
            i <= x@.len(),
            j <= y@.len(),
            ascending_ids(x@),
            ascending_ids(y@),
            ascending_ids(out@),
            forall|e: int| 0 <= e < out@.len() ==> shared(x@, y@, (#[trigger] out@[e]).0, out@[e].1),
            forall|e: int| 0 <= e < out@.len() && i < x@.len() ==> (#[trigger] out@[e]).0 < x@[i as int].0,
            forall|e: int| 0 <= e < out@.len() && j < y@.len() ==> (#[trigger] out@[e]).0 < y@[j as int].0,
            forall|a: int, b: int|
                0 <= a < x@.len() && 0 <= b < y@.len() && (#[trigger] x@[a]).0 == (#[trigger] y@[b]).0 ==> {
                    ||| a >= i && b >= j
                    ||| a < i && b < j && out@.contains((x@[a].0, min_key(x@[a].1, y@[b].1)))
                },
        decreases x@.len() - i + y@.len() - j,
    {
        let (xi, xw) = x[i];
        let (yi, yw) = y[j];
        if xi == yi {
            let ghost prev = out@;
            let w = if xw < yw {
                xw
            } else {
                yw
            };
            out.push((xi, w));
            proof {
                assert(out@[prev.len() as int] == (xi, w));
                assert forall|a: int, b: int|
                    0 <= a < x@.len() && 0 <= b < y@.len() && (#[trigger] x@[a]).0 == (#[trigger] y@[b]).0 implies {
                    ||| a >= i + 1 && b >= j + 1
                    ||| a < i + 1 && b < j + 1 && out@.contains((x@[a].0, min_key(x@[a].1, y@[b].1)))
                } by {
                    if a < i && b < j {
                        let e = choose|e: int| 0 <= e < prev.len() && prev[e] == (x@[a].0, min_key(x@[a].1, y@[b].1));
                        assert(out@[e] == prev[e]);
                    }
                }
            }
            i += 1;
            j += 1;
        } else if xi < yi {
            i += 1;
        } else {
            j += 1;
        }
    }
    proof {
        assert forall|id: u64, w: u64| out@.contains((id, w)) <==> shared(x@, y@, id, w) by {
            if out@.contains((id, w)) {
                let e = choose|e: int| 0 <= e < out@.len() && out@[e] == (id, w);
                assert(shared(x@, y@, out@[e].0, out@[e].1));
            }
            if shared(x@, y@, id, w) {
                let (a, b) = choose|a: int, b: int|
                    0 <= a < x@.len() && 0 <= b < y@.len() && (#[trigger] x@[a]).0 == id && (#[trigger] y@[b]).0
                        == id && w == min_key(x@[a].1, y@[b].1);
                assert(x@[a].0 == y@[b].0);
            }
        }
    }
    out
}

/// The number of positions at which two one-bit sketches differ, or the error
/// that they differ in length.
pub fn hamming_distance(x: &[bool], y: &[bool]) -> (res: Result<u64, SketchError>)
    ensures
        res == if x@.len() == y@.len() {
            Ok::<u64, SketchError>(hamming(x@, y@) as u64)
        } else {
            Err(SketchError::LengthMismatch { left: x@.len() as usize, right: y@.len() as usize })
        },
        hamming(x@, y@) <= x@.len(),
{
    if x.len() != y.len() {
        proof {
            lemma_hamming_bound(x@, y@);
        }
        return Err(SketchError::LengthMismatch { left: x.len(), right: y.len() });
    }
    let mut h: u64 = 0;
    let mut i: usize = 0;
    while i < x.len()
        invariant
            i <= x@.len(),
            x@.len() == y@.len(),
            h == hamming(x@.take(i as int), y@.take(i as int)),
            h <= i,
        decreases x@.len() - i,
    {
        assert(x@.take(i + 1).drop_last() == x@.take(i as int));
        assert(y@.take(i + 1).drop_last() == y@.take(i as int));
        if x[i] != y[i] {
            h += 1;
        }
        i += 1;
    }
    assert(x@.take(x@.len() as int) == x@);
    assert(y@.take(y@.len() as int) == y@);
    Ok(h)
}

/// The number of positions at which two sketches carry the same identity, or
/// the error that they differ in length. Ranks are not compared.
pub fn count_collisions<R>(x: &[(u64, R)], y: &[(u64, R)]) -> (res: Result<u64, SketchError>)
    ensures
        res == if x@.len() == y@.len() {
            Ok::<u64, SketchError>(collisions(x@, y@) as u64)
        } else {
            Err(SketchError::LengthMismatch { left: x@.len() as usize, right: y@.len() as usize })
        },
        collisions(x@, y@) <= x@.len(),
{
    if x.len() != y.len() {
        proof {
            lemma_collisions_bound(x@, y@);
        }
        return Err(SketchError::LengthMismatch { left: x.len(), right: y.len() });
    }
    let mut c: u64 = 0;
    let mut i: usize = 0;
    while i < x.len()
        invariant
            i <= x@.len(),
            x@.len() == y@.len(),
            c == collisions(x@.take(i as int), y@.take(i as int)),
            c <= i,
        decreases x@.len() - i,
    {
        assert(x@.take(i + 1).drop_last() == x@.take(i as int));
        assert(y@.take(i + 1).drop_last() == y@.take(i as int));
        if x[i].0 == y[i].0 {
            c += 1;
        }
        i += 1;
    }
    assert(x@.take(x@.len() as int) == x@);
    assert(y@.take(y@.len() as int) == y@);
    Ok(c)
}

/// Two sketches collide at no more positions than they have.
pub proof fn lemma_collisions_bound<R>(x: Seq<(u64, R)>, y: Seq<(u64, R)>)
    ensures
        collisions(x, y) <= x.len(),
    decreases x.len(),
{
    if x.len() != 0 && y.len() != 0 {
        lemma_collisions_bound(x.drop_last(), y.drop_last());
    }
}

/// A sketch collides with itself in every slot.
pub proof fn lemma_self_collisions<R>(x: Seq<(u64, R)>)
    ensures
        collisions(x, x) == x.len(),
    decreases x.len(),
{
    if x.len() != 0 {
        lemma_self_collisions(x.drop_last());
    }
}

/// A one-bit sketch differs from itself nowhere.
pub proof fn lemma_self_hamming(x: Seq<bool>)
    ensures
        hamming(x, x) == 0,
    decreases x.len(),
{
    if x.len() != 0 {
        lemma_self_hamming(x.drop_last());
    }
}

/// Two one-bit sketches differ at no more positions than they have.
pub proof fn lemma_hamming_bound(x: Seq<bool>, y: Seq<bool>)
    ensures
        hamming(x, y) <= x.len(),
    decreases x.len(),
{
    if x.len() != 0 && y.len() != 0 {
        lemma_hamming_bound(x.drop_last(), y.drop_last());
    }
}

} // verus!
