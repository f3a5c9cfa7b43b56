use dartminhash::hash_utils::{
    draw_words32, draw_words64, tab32_at, tab32_from_rng, tab32_from_words, tab64_at, tab64_from_rng,
    tab64_from_words, to_units,
};
use mt19937::MT19937;
use rand_core::Rng;

fn seeded(seed: u32) -> MT19937 {
    MT19937::new_with_slice_seed(&[seed])
}

#[test]
fn to_units_splits_high_and_low_halves() {
    assert_eq!(to_units(0), (0, 0));
    assert_eq!(to_units(0x0000_0001_0000_0002), (1, 2));
    assert_eq!(to_units(0xDEAD_BEEF_0123_4567), (0xDEAD_BEEF, 0x0123_4567));
    assert_eq!(to_units(u64::MAX), (u32::MAX, u32::MAX));
    assert_eq!(to_units(0xFFFF_FFFF), (0, u32::MAX));
    assert_eq!(to_units(0x1_0000_0000), (1, 0));
}

#[test]
fn to_units_halves_give_uniforms_below_one() {
    let (hi, lo) = to_units(0x8000_0000_4000_0000);
    let u_hi = (hi as f64) / 4294967295.0;
    let u_lo = (lo as f64) / 4294967295.0;
    assert!((u_hi - 0.5).abs() < 1e-9);
    assert!((u_lo - 0.25).abs() < 1e-9);
}

#[test]
fn tab32_from_words_lays_words_out_row_by_row() {
    let words: Vec<u32> = (0..1024u32).map(|n| n.wrapping_mul(2654435761)).collect();
    let h = tab32_from_words(&words);
    let table = h.to_vec();
    assert_eq!(table.len(), 4);
    for i in 0..4 {
        assert_eq!(table[i].len(), 256);
        for j in 0..256 {
            assert_eq!(table[i][j], words[256 * i + j]);
        }
    }
}

#[test]
fn tab64_from_words_lays_words_out_row_by_row() {
    let words: Vec<u64> = (0..2048u64).map(|n| n.wrapping_mul(0x9E37_79B9_7F4A_7C15)).collect();
    let h = tab64_from_words(&words);
    let table = h.to_vec();
    assert_eq!(table.len(), 8);
    for i in 0..8 {
        assert_eq!(table[i].len(), 256);
        for j in 0..256 {
            assert_eq!(table[i][j], words[256 * i + j]);
        }
    }
}

#[test]
fn tab32_hash_is_xor_of_one_entry_per_byte() {
    let words: Vec<u32> = (0..1024u32).map(|n| n.wrapping_mul(2654435761) ^ 0x5bd1_e995).collect();
    let h = tab32_from_words(&words);
    for &x in &[0u32, 1, 0xff, 0x100, 0x0403_0201, 0xdead_beef, u32::MAX] {
        let expected = words[(x & 0xff) as usize]
            ^ words[256 + ((x >> 8) & 0xff) as usize]
            ^ words[512 + ((x >> 16) & 0xff) as usize]
            ^ words[768 + ((x >> 24) & 0xff) as usize];
        assert_eq!(h.hash(x), expected);
    }
    // key 0x04030201 reads entry 1 of row 0, 2 of row 1, 3 of row 2, 4 of row 3
    assert_eq!(
        h.hash(0x0403_0201),
        words[1] ^ words[256 + 2] ^ words[512 + 3] ^ words[768 + 4]
    );
}

#[test]
fn tab64_hash_is_xor_of_one_entry_per_byte() {
    let words: Vec<u64> = (0..2048u64).map(|n| (n + 1).wrapping_mul(0x9E37_79B9_7F4A_7C15)).collect();
    let h = tab64_from_words(&words);
    for &x in &[0u64, 1, 0xff00, 0x0807_0605_0403_0201, 0xdead_beef_cafe_f00d, u64::MAX] {
        let mut expected = 0u64;
        for row in 0..8 {
            expected ^= words[256 * row + ((x >> (8 * row)) & 0xff) as usize];
        }
        assert_eq!(h.hash(x), expected);
    }
}

#[test]
fn tab32_from_rng_takes_1024_words_in_order() {
    let mut rng = seeded(7);
    let mut twin = seeded(7);
    let h = tab32_from_rng(&mut rng);
    let table = h.to_vec();
    for i in 0..4 {
        for j in 0..256 {
            assert_eq!(table[i][j], twin.next_u32());
        }
    }
    // both generators have advanced equally
    assert_eq!(rng.next_u32(), twin.next_u32());
}

#[test]
fn tab64_from_rng_takes_2048_words_in_order() {
    let mut rng = seeded(11);
    let mut twin = seeded(11);
    let h = tab64_from_rng(&mut rng);
    let table = h.to_vec();
    for i in 0..8 {
        for j in 0..256 {
            assert_eq!(table[i][j], twin.next_u64());
        }
    }
    assert_eq!(rng.next_u64(), twin.next_u64());
}

#[test]
fn hashers_from_equal_seeds_agree_and_from_other_seeds_differ() {
    let a = tab64_from_rng(&mut seeded(1));
    let b = tab64_from_rng(&mut seeded(1));
    let c = tab64_from_rng(&mut seeded(2));
    assert_eq!(a.hash(12345), b.hash(12345));
    assert_ne!(a.hash(12345), c.hash(12345));
}

#[test]
fn draw_words32_takes_the_next_words_in_order() {
    let mut rng = seeded(21);
    let mut twin = seeded(21);
    let words = draw_words32(&mut rng, 700);
    assert_eq!(words.len(), 700);
    for &w in &words {
        assert_eq!(w, twin.next_u32());
    }
    assert_eq!(draw_words32(&mut rng, 0), Vec::<u32>::new());
    assert_eq!(rng.next_u32(), twin.next_u32());
}

#[test]
fn draw_words64_takes_two_words_of_32_bits_each_low_half_first() {
    let mut rng = seeded(22);
    let mut twin = seeded(22);
    let words = draw_words64(&mut rng, 650);
    assert_eq!(words.len(), 650);
    for &w in &words {
        let low = twin.next_u32() as u64;
        let high = twin.next_u32() as u64;
        assert_eq!(w, (high << 32) | low);
    }
    assert_eq!(rng.next_u32(), twin.next_u32());
}

#[test]
fn a_generator_that_was_never_seeded_gives_the_words_of_seed_5489() {
    let mut rng = MT19937::default();
    let words = draw_words32(&mut rng, 3);
    assert_eq!(words, vec![3499211612, 581869302, 3890346734]);
    let mut rng = MT19937::default();
    let h = tab32_from_rng(&mut rng);
    assert_eq!(h.to_vec()[0][0], 3499211612);
    let mut rng = MT19937::default();
    assert_eq!(draw_words64(&mut rng, 1), vec![(581869302u64 << 32) | 3499211612]);
}

#[test]
fn tables_are_cut_from_any_place_in_the_words() {
    let words: Vec<u32> = (0..3000u32).collect();
    let h = tab32_at(&words, 1500);
    let table = h.to_vec();
    for i in 0..4 {
        for j in 0..256 {
            assert_eq!(table[i][j], 1500 + (256 * i + j) as u32);
        }
    }
    let words: Vec<u64> = (0..5000u64).collect();
    let h = tab64_at(&words, 2952);
    let table = h.to_vec();
    for i in 0..8 {
        for j in 0..256 {
            assert_eq!(table[i][j], 2952 + (256 * i + j) as u64);
        }
    }
}
