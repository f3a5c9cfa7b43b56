use dartminhash::hash_utils::{tab32_from_rng, tab64_from_rng};
use dartminhash::keys::{clamp_unit, BELOW_ONE_KEY, INFINITY_KEY, ONE_KEY};
use dartminhash::rejsmp::{dense_weights, ErsWmh, RedGreenIndex};
use mt19937::MT19937;
use tab_hash::{Tab32Simple, Tab64Simple};

fn seeded(seed: u32) -> MT19937 {
    MT19937::new_with_slice_seed(&[seed])
}

fn keys(v: &[f64]) -> Vec<u64> {
    v.iter().map(|w| w.to_bits()).collect()
}

fn index_of(cum: &[f64]) -> RedGreenIndex {
    RedGreenIndex::from_cumulative(keys(cum)).unwrap()
}

/// An engine over `cum` with `k` slots, and hashers equal to its three.
fn engine(seed: u32, cum: &[f64], k: u64) -> (ErsWmh, Tab64Simple, Tab64Simple, Tab32Simple) {
    let ers = ErsWmh::new_mt(&mut seeded(seed), index_of(cum), k);
    let mut twin = seeded(seed);
    let t_u = tab64_from_rng(&mut twin);
    let t_id = tab64_from_rng(&mut twin);
    let t_rot = tab32_from_rng(&mut twin);
    (ers, t_u, t_id, t_rot)
}

fn fallback(t_rot: &Tab32Simple, k: usize) -> Vec<(u64, Option<u32>)> {
    (0..k)
        .map(|j| (((t_rot.hash(j as u32) as u64) << 32) | (j as u64), None))
        .collect()
}

#[test]
fn from_cumulative_accepts_running_totals() {
    let index = index_of(&[0.0, 1.5, 1.5, 4.0]);
    assert_eq!(index.d(), 3);
    assert_eq!(index.m_total(), 4.0f64.to_bits());
    let single = index_of(&[0.0]);
    assert_eq!(single.d(), 0);
    assert_eq!(single.m_total(), 0);
    let unbounded = RedGreenIndex::from_cumulative(vec![0, 5, INFINITY_KEY]).unwrap();
    assert_eq!(unbounded.m_total(), INFINITY_KEY);
}

#[test]
fn from_cumulative_refuses_what_is_no_partition() {
    assert!(RedGreenIndex::from_cumulative(vec![]).is_none());
    assert!(RedGreenIndex::from_cumulative(keys(&[0.5, 1.0])).is_none());
    assert!(RedGreenIndex::from_cumulative(keys(&[0.0, 2.0, 1.0])).is_none());
    assert!(RedGreenIndex::from_cumulative(keys(&[0.0, 2.0, 1.0, 3.0])).is_none());
    assert!(RedGreenIndex::from_cumulative(vec![0, 1, INFINITY_KEY + 1]).is_none());
    assert!(RedGreenIndex::from_cumulative(vec![0, f64::NAN.to_bits()]).is_none());
    assert!(RedGreenIndex::from_cumulative(vec![0, (-1.0f64).to_bits()]).is_none());
}

#[test]
fn comp_of_finds_the_covering_interval() {
    let index = index_of(&[0.0, 1.0, 3.0, 3.5]);
    assert_eq!(index.comp_of(0.0f64.to_bits()), (0, 0.0f64.to_bits()));
    assert_eq!(index.comp_of(0.999f64.to_bits()), (0, 0.0f64.to_bits()));
    assert_eq!(index.comp_of(1.0f64.to_bits()), (1, 1.0f64.to_bits()));
    assert_eq!(index.comp_of(2.25f64.to_bits()), (1, 1.0f64.to_bits()));
    assert_eq!(index.comp_of(3.0f64.to_bits()), (2, 3.0f64.to_bits()));
    assert_eq!(index.comp_of(3.4999f64.to_bits()), (2, 3.0f64.to_bits()));
}

#[test]
fn comp_of_skips_coordinates_without_capacity() {
    let index = index_of(&[0.0, 0.0, 1.5, 1.5, 1.5, 4.0]);
    assert_eq!(index.comp_of(0.0f64.to_bits()), (1, 0.0f64.to_bits()));
    assert_eq!(index.comp_of(1.0f64.to_bits()), (1, 0.0f64.to_bits()));
    assert_eq!(index.comp_of(1.5f64.to_bits()), (4, 1.5f64.to_bits()));
    assert_eq!(index.comp_of(3.0f64.to_bits()), (4, 1.5f64.to_bits()));
}

#[test]
fn comp_of_moves_a_position_at_or_past_the_end_inside() {
    let index = index_of(&[0.0, 1.0, 3.0, 3.5]);
    assert_eq!(index.comp_of(3.5f64.to_bits()), (2, 3.0f64.to_bits()));
    assert_eq!(index.comp_of(100.0f64.to_bits()), (2, 3.0f64.to_bits()));
    assert_eq!(index.comp_of(INFINITY_KEY), (2, 3.0f64.to_bits()));
    // a last interval too short to hold the moved position is still the answer
    let narrow = RedGreenIndex::from_cumulative(vec![0, 10, 11]).unwrap();
    assert_eq!(narrow.comp_of(11), (1, 10));
    assert_eq!(narrow.comp_of(10), (1, 10));
    assert_eq!(narrow.comp_of(9), (0, 0));
}

#[test]
fn dense_weights_writes_the_vector_out() {
    let x = vec![(1u64, 0.5f64.to_bits()), (3, 2.0f64.to_bits()), (4, 0)];
    assert_eq!(
        dense_weights(6, &x),
        vec![0, 0.5f64.to_bits(), 0, 2.0f64.to_bits(), 0, 0]
    );
    assert_eq!(dense_weights(0, &[]), Vec::<u64>::new());
    assert_eq!(dense_weights(3, &[]), vec![0, 0, 0]);
}

#[test]
fn dense_weights_keeps_the_last_positive_entry_of_a_coordinate() {
    let x = vec![(2u64, 7u64), (2, 9), (2, 0), (0, 4)];
    assert_eq!(dense_weights(3, &x), vec![4, 0, 9]);
}

#[test]
fn clamp_unit_keeps_variates_below_one() {
    assert_eq!(clamp_unit(0), 0);
    assert_eq!(clamp_unit(0.25f64.to_bits()), 0.25f64.to_bits());
    assert_eq!(clamp_unit(BELOW_ONE_KEY), BELOW_ONE_KEY);
    assert_eq!(clamp_unit(ONE_KEY), BELOW_ONE_KEY);
    assert_eq!(clamp_unit(1.0f64.to_bits()), 0x3fef_ffff_ffff_ffff);
    assert_eq!(clamp_unit(2.0f64.to_bits()), BELOW_ONE_KEY);
    assert!(f64::from_bits(clamp_unit(1.0f64.to_bits())) < 1.0);
}

#[test]
fn new_mt_keeps_index_and_width() {
    let (ers, _, _, _) = engine(3, &[0.0, 1.0, 3.0], 16);
    assert_eq!(ers.k(), 16);
    assert_eq!(ers.index().d(), 2);
    assert_eq!(ers.index().m_total(), 3.0f64.to_bits());
}

#[test]
fn scan_draws_follow_slot_and_attempt() {
    let (ers, t_u, _, _) = engine(5, &[0.0, 1.0, 3.0], 3);
    let x = vec![(0u64, 0.5f64.to_bits()), (1, 1.0f64.to_bits())];
    let mut scan = ers.sketch(&x, Some(2));
    let mut seen = Vec::new();
    while let Some(draw) = scan.next_draw() {
        seen.push(draw);
        scan = scan.report(None);
    }
    let expected: Vec<u64> = [(0u64, 1u64), (0, 2), (1, 1), (1, 2), (2, 1), (2, 2)]
        .iter()
        .map(|&(j, t)| t_u.hash((j << 32) ^ t))
        .collect();
    assert_eq!(seen, expected);
}

#[test]
fn scan_without_limit_allows_1024_attempts_per_slot() {
    let (ers, t_u, _, _) = engine(5, &[0.0, 1.0], 2);
    let x = vec![(0u64, 1.0f64.to_bits())];
    let mut scan = ers.sketch(&x, None);
    let mut draws = 0u64;
    let mut last = 0u64;
    while let Some(draw) = scan.next_draw() {
        draws += 1;
        last = draw;
        scan = scan.report(None);
    }
    assert_eq!(draws, 2 * 1024);
    assert_eq!(last, t_u.hash((1u64 << 32) ^ 1024));
}

#[test]
fn scan_limit_is_the_request_up_to_the_largest_attempt_index() {
    let (ers, t_u, t_id, t_rot) = engine(5, &[0.0, 1.0], 2);
    let x = vec![(0u64, 1.0f64.to_bits())];
    // no attempt allowed: finished at once
    let scan = ers.sketch(&x, Some(0));
    assert_eq!(scan.next_draw(), None);
    assert_eq!(scan.finish(), fallback(&t_rot, 2));
    // three attempts per slot
    let mut scan = ers.sketch(&x, Some(3));
    let mut draws = 0;
    while scan.next_draw().is_some() {
        draws += 1;
        scan = scan.report(None);
    }
    assert_eq!(draws, 2 * 3);
    // a request beyond 32 bits allows attempts all the same
    for request in [1u64 << 32, (1u64 << 32) + 3, u64::MAX, u32::MAX as u64] {
        let mut scan = ers.sketch(&x, Some(request));
        assert_eq!(scan.next_draw(), Some(t_u.hash(1)));
        for _ in 0..5000 {
            scan = scan.report(None);
        }
        assert_eq!(scan.next_draw(), Some(t_u.hash(5001)));
        scan = scan.report(Some(9));
        scan = scan.report(Some(9));
        assert_eq!(scan.next_draw(), None);
        assert_eq!(scan.finish(), vec![(t_id.hash(9), Some(5001)), (t_id.hash(9), Some(1))]);
    }
}

#[test]
fn engine_from_words_takes_positions_identities_and_rotation() {
    let words64: Vec<u64> = (0..4096u64).map(|n| if n < 256 { n } else if (2048..2304).contains(&n) { 1000 + n - 2048 } else { 0 }).collect();
    let words32: Vec<u32> = (0..1024u32).map(|n| if n < 256 { 7 * n } else { 0 }).collect();
    let ers = ErsWmh::from_words(index_of(&[0.0, 1.0]), &words64, &words32, 3);
    assert_eq!(ers.k(), 3);
    let x = vec![(0u64, 1.0f64.to_bits())];
    let mut scan = ers.sketch(&x, Some(2));
    // the position hash of key (slot << 32) ^ attempt is the attempt's low byte
    assert_eq!(scan.next_draw(), Some(1));
    scan = scan.report(Some(5));
    // the identity hash of a position key is 1000 plus its low byte
    assert_eq!(scan.finish(), vec![(1005, Some(1)); 3]);
    // the rotation hash of slot j is 7 j
    let empty = ers.sketch(&[], None).finish();
    assert_eq!(empty, vec![(0, None), ((7u64 << 32) | 1, None), ((14u64 << 32) | 2, None)]);
}

#[test]
fn scan_of_a_vector_without_weight_is_finished_at_once() {
    let (ers, _, _, t_rot) = engine(9, &[0.0, 1.0, 3.0], 5);
    let scan = ers.sketch(&[], Some(8));
    assert_eq!(scan.next_draw(), None);
    assert_eq!(scan.finish(), fallback(&t_rot, 5));
    let zeros = vec![(0u64, 0u64), (1, 0)];
    let scan = ers.sketch(&zeros, Some(8));
    assert_eq!(scan.next_draw(), None);
    assert_eq!(scan.finish(), fallback(&t_rot, 5));
}

#[test]
fn scan_over_an_empty_line_is_finished_at_once() {
    let (ers, _, _, t_rot) = engine(9, &[0.0, 0.0, 0.0], 4);
    let x = vec![(0u64, 1.0f64.to_bits())];
    let scan = ers.sketch(&x, Some(8));
    assert_eq!(scan.next_draw(), None);
    assert_eq!(scan.finish(), fallback(&t_rot, 4));
}

#[test]
fn covering_gives_boundary_and_weight_of_the_coordinate() {
    let (ers, _, _, _) = engine(5, &[0.0, 1.0, 3.0, 3.5], 3);
    let x = vec![(0u64, 0.5f64.to_bits()), (2, 0.25f64.to_bits())];
    let scan = ers.sketch(&x, Some(2));
    assert_eq!(
        scan.covering(0.75f64.to_bits()),
        (0, 0.0f64.to_bits(), 0.5f64.to_bits())
    );
    assert_eq!(scan.covering(2.0f64.to_bits()), (1, 1.0f64.to_bits(), 0));
    assert_eq!(
        scan.covering(3.5f64.to_bits()),
        (2, 3.0f64.to_bits(), 0.25f64.to_bits())
    );
}

#[test]
fn all_red_scan_gives_the_fallback_sketch() {
    let (ers, _, _, t_rot) = engine(21, &[0.0, 1.0], 6);
    let x = vec![(0u64, 1.0f64.to_bits())];
    let mut scan = ers.sketch(&x, Some(3));
    while scan.next_draw().is_some() {
        scan = scan.report(None);
    }
    let sketch = scan.finish();
    assert_eq!(sketch.len(), 6);
    assert_eq!(sketch, fallback(&t_rot, 6));
    for (j, slot) in sketch.iter().enumerate() {
        assert_eq!(slot.0 & 0xffff_ffff, j as u64);
        assert_eq!(slot.1, None);
    }
}

#[test]
fn green_attempt_closes_the_slot_with_hashed_identity_and_attempt() {
    let (ers, _, t_id, _) = engine(21, &[0.0, 1.0], 2);
    let x = vec![(0u64, 1.0f64.to_bits())];
    let mut scan = ers.sketch(&x, Some(5));
    // slot 0: red, red, green at the third attempt
    scan = scan.report(None);
    scan = scan.report(None);
    scan = scan.report(Some(0.125f64.to_bits()));
    // slot 1: green at once
    scan = scan.report(Some(0.75f64.to_bits()));
    assert_eq!(scan.next_draw(), None);
    assert_eq!(
        scan.finish(),
        vec![
            (t_id.hash(0.125f64.to_bits()), Some(3)),
            (t_id.hash(0.75f64.to_bits()), Some(1)),
        ]
    );
}

/// The densification rule, written out plainly.
fn densify_by_hand(
    accepted: &[Option<(u64, u32)>],
    t_rot: &Tab32Simple,
) -> Vec<(u64, Option<u32>)> {
    let k = accepted.len();
    let mut slots = accepted.to_vec();
    for j in 0..k {
        if slots[j].is_none() {
            let span = if k > 1 { k - 1 } else { 1 };
            let offset = (t_rot.hash(j as u32) as usize % span) + 1;
            let mut idx = (j + offset) % k;
            while slots[idx].is_none() {
                idx = (idx + 1) % k;
            }
            slots[j] = slots[idx];
        }
    }
    slots
        .into_iter()
        .map(|s| {
            let (id, t) = s.unwrap();
            (id, Some(t))
        })
        .collect()
}

fn scan_with(ers: &ErsWmh, pattern: &[Option<(u64, u32)>], limit: u32) -> Vec<(u64, Option<u32>)> {
    let x = vec![(0u64, 1.0f64.to_bits())];
    let mut scan = ers.sketch(&x, Some(limit as u64));
    for outcome in pattern {
        match outcome {
            Some((r, t)) => {
                for _ in 1..*t {
                    scan = scan.report(None);
                }
                scan = scan.report(Some(*r));
            }
            None => {
                for _ in 0..limit {
                    scan = scan.report(None);
                }
            }
        }
    }
    assert_eq!(scan.next_draw(), None);
    scan.finish()
}

#[test]
fn empty_slots_borrow_from_the_slot_where_their_walk_stops() {
    for seed in 0..40u32 {
        let (ers, _, t_id, t_rot) = engine(seed, &[0.0, 1.0], 7);
        let pattern = [None, Some((100u64, 2u32)), None, None, Some((200, 1)), None, None];
        let accepted: Vec<Option<(u64, u32)>> = pattern
            .iter()
            .map(|o| o.map(|(r, t)| (t_id.hash(r), t)))
            .collect();
        let sketch = scan_with(&ers, &pattern, 3);
        assert_eq!(sketch.len(), 7);
        assert_eq!(sketch, densify_by_hand(&accepted, &t_rot));
        assert_eq!(sketch[1], (t_id.hash(100), Some(2)));
        assert_eq!(sketch[4], (t_id.hash(200), Some(1)));
        for slot in &sketch {
            assert!(*slot == sketch[1] || *slot == sketch[4]);
        }
    }
}

#[test]
fn a_single_filled_slot_fills_every_slot() {
    for seed in 0..40u32 {
        for filled in 0..5usize {
            let (ers, _, t_id, _) = engine(seed, &[0.0, 1.0], 5);
            let mut pattern = [None; 5];
            pattern[filled] = Some((77u64, 3u32));
            let sketch = scan_with(&ers, &pattern, 4);
            assert_eq!(sketch, vec![(t_id.hash(77), Some(3)); 5]);
        }
    }
}

#[test]
fn a_sketch_of_one_slot() {
    let (ers, _, t_id, t_rot) = engine(2, &[0.0, 1.0], 1);
    assert_eq!(scan_with(&ers, &[Some((5, 1))], 2), vec![(t_id.hash(5), Some(1))]);
    assert_eq!(scan_with(&ers, &[None], 2), fallback(&t_rot, 1));
}

#[test]
fn unreached_slots_count_as_empty() {
    let (ers, _, t_id, _) = engine(4, &[0.0, 1.0], 3);
    let x = vec![(0u64, 1.0f64.to_bits())];
    let mut scan = ers.sketch(&x, Some(4));
    scan = scan.report(Some(9));
    assert!(scan.next_draw().is_some());
    assert_eq!(scan.finish(), vec![(t_id.hash(9), Some(1)); 3]);
}

#[test]
fn equal_scans_give_equal_sketches() {
    let (ers, _, _, _) = engine(8, &[0.0, 1.0], 9);
    let pattern = [
        None,
        Some((1u64, 1u32)),
        None,
        Some((2, 2)),
        None,
        None,
        Some((3, 3)),
        None,
        None,
    ];
    let first = scan_with(&ers, &pattern, 3);
    let second = scan_with(&ers, &pattern, 3);
    assert_eq!(first, second);
}

/// A hasher whose table holds `value(row, byte)`.
fn tab32_with(value: impl Fn(usize, usize) -> u32) -> Tab32Simple {
    let words: Vec<u32> = (0..1024).map(|n| value(n / 256, n % 256)).collect();
    dartminhash::hash_utils::tab32_from_words(&words)
}

fn tab64_with(value: impl Fn(usize, usize) -> u64) -> Tab64Simple {
    let words: Vec<u64> = (0..2048).map(|n| value(n / 256, n % 256)).collect();
    dartminhash::hash_utils::tab64_from_words(&words)
}

/// An engine whose position hash of a key is the key's low byte, whose identity
/// hash of a key is the key's low byte plus 1000, and whose rotation hash of
/// `j < 256` is `rot(j)`.
fn plain_engine(k: u64, rot: impl Fn(usize) -> u32) -> ErsWmh {
    let t_u = tab64_with(|row, byte| if row == 0 { byte as u64 } else { 0 });
    let t_id = tab64_with(|row, byte| if row == 0 { 1000 + byte as u64 } else { 0 });
    let t_rot = tab32_with(|row, byte| if row == 0 { rot(byte) } else { 0 });
    ErsWmh::from_parts(index_of(&[0.0, 1.0]), t_u, t_id, t_rot, k)
}

#[test]
fn from_parts_keeps_its_parts() {
    let ers = plain_engine(5, |_| 0);
    assert_eq!(ers.k(), 5);
    assert_eq!(ers.index().d(), 1);
    let x = vec![(0u64, 1.0f64.to_bits())];
    let mut scan = ers.sketch(&x, Some(3));
    // the position hash of key (slot << 32) ^ attempt is the attempt's low byte
    assert_eq!(scan.next_draw(), Some(1));
    scan = scan.report(None);
    assert_eq!(scan.next_draw(), Some(2));
    scan = scan.report(Some(7));
    assert_eq!(scan.next_draw(), Some(1));
    let sketch = scan.finish();
    assert_eq!(sketch, vec![(1007, Some(2)); 5]);
}

#[test]
fn fallback_identity_has_the_hash_above_and_the_slot_below() {
    let ers = plain_engine(3, |j| 0x00ab_0000 + j as u32);
    let x = vec![(0u64, 0u64)];
    let sketch = ers.sketch(&x, None).finish();
    assert_eq!(
        sketch,
        vec![
            (0x00ab_0000_0000_0000, None),
            (0x00ab_0001_0000_0001, None),
            (0x00ab_0002_0000_0002, None),
        ]
    );
}

#[test]
fn a_walk_begins_one_past_the_slot_when_the_hash_is_a_multiple_of_the_span() {
    // k = 6, every rotation hash 0: offset 1, so each empty slot takes what the
    // next slot holds, or the one after if that is empty too
    let ers = plain_engine(6, |_| 0);
    let pattern = [None, None, Some((10u64, 1u32)), None, Some((20, 2)), None];
    assert_eq!(
        scan_with(&ers, &pattern, 2),
        vec![
            (1010, Some(1)),
            (1010, Some(1)),
            (1010, Some(1)),
            (1020, Some(2)),
            (1020, Some(2)),
            // slot 5 walks on from slot 0, which has been filled by then
            (1010, Some(1)),
        ]
    );
}

#[test]
fn a_walk_begins_at_the_hashed_offset_past_the_slot() {
    // k = 6, span 5: slot j walks from j + (hash(j) % 5) + 1
    let ers = plain_engine(6, |j| *[3u32, 9, 0, 4, 0, 7].get(j).unwrap_or(&0));
    let pattern = [None, None, Some((10u64, 1u32)), None, Some((20, 2)), None];
    assert_eq!(
        scan_with(&ers, &pattern, 2),
        vec![
            // slot 0: offset 4, walk from 4
            (1020, Some(2)),
            // slot 1: offset 5, walk from 0, filled by then
            (1020, Some(2)),
            (1010, Some(1)),
            // slot 3: offset 5, walk from 2
            (1010, Some(1)),
            (1020, Some(2)),
            // slot 5: offset 3, walk from 2
            (1010, Some(1)),
        ]
    );
}

#[test]
fn a_walk_reaches_the_one_filled_slot_wherever_it_begins() {
    // slot 0 walks from 2 and passes 2, 3, 0 before it reaches slot 1
    let ers = plain_engine(4, |j| *[1u32, 0, 0, 0].get(j).unwrap_or(&0));
    let pattern = [None, Some((5u64, 2u32)), None, None];
    assert_eq!(scan_with(&ers, &pattern, 2), vec![(1005, Some(2)); 4]);
}

#[test]
fn sketch_early_stop_allows_the_default_number_of_attempts() {
    let (ers, t_u, t_id, _) = engine(5, &[0.0, 1.0], 3);
    let x = vec![(0u64, 1.0f64.to_bits())];
    let mut scan = ers.sketch_early_stop(&x);
    let mut twin = ers.sketch(&x, None);
    let mut draws = 0u32;
    while let Some(draw) = scan.next_draw() {
        assert_eq!(twin.next_draw(), Some(draw));
        draws += 1;
        // slot 1 turns green at its last attempt, the others stay red
        let green = if draws == 2 * 1024 { Some(42) } else { None };
        scan = scan.report(green);
        twin = twin.report(green);
    }
    assert_eq!(draws, 3 * 1024);
    assert_eq!(t_u.hash((2u64 << 32) ^ 1024), {
        let mut last = ers.sketch_early_stop(&x);
        for _ in 0..3 * 1024 - 1 {
            last = last.report(None);
        }
        last.next_draw().unwrap()
    });
    let sketch = scan.finish();
    assert_eq!(sketch, vec![(t_id.hash(42), Some(1024)); 3]);
    assert_eq!(sketch, twin.finish());
}
