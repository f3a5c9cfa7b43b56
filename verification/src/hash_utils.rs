//! The deterministic pseudorandom substrate: tabulation hashers filled from a
//! seeded word source, and the splitting of a hash into two uniform numerators.

use mt19937::MT19937;
use tab_hash::{Tab32Simple, Tab64Simple};
use vstd::prelude::*;

verus! {

/// The Mersenne Twister of `mt19937`, the word source that seeds every engine.
/// Nothing is known of its state.
#[verifier::external_type_specification]
#[verifier::external_body]
pub struct ExMT19937(mt19937::MT19937);

/// The simple tabulation hasher of `tab_hash` for 32-bit keys. Of its content
/// only `tab32_table` speaks.
#[verifier::external_type_specification]
#[verifier::external_body]
pub struct ExTab32Simple(tab_hash::Tab32Simple);

/// The simple tabulation hasher of `tab_hash` for 64-bit keys. Of its content
/// only `tab64_table` speaks.
#[verifier::external_type_specification]
#[verifier::external_body]
pub struct ExTab64Simple(tab_hash::Tab64Simple);

/// The lookup table held by a 32-bit hasher: four rows of 256 words.
pub uninterp spec fn tab32_table(h: Tab32Simple) -> Seq<Seq<u32>>;

/// The lookup table held by a 64-bit hasher: eight rows of 256 words.
pub uninterp spec fn tab64_table(h: Tab64Simple) -> Seq<Seq<u64>>;

/// A table of `rows` rows, each of 256 entries.
pub open spec fn is_table<T>(table: Seq<Seq<T>>, rows: int) -> bool {
    &&& table.len() == rows
    &&& forall|i: int| 0 <= i < rows ==> (#[trigger] table[i]).len() == 256
}

/// Simple tabulation hash of a 32-bit key: the exclusive-or of one table entry
/// per byte of the key, least significant byte in row 0.
pub open spec fn tab32_hash(table: Seq<Seq<u32>>, x: u32) -> u32 {
    table[0][(x & 0xff) as int] ^ table[1][((x >> 8) & 0xff) as int]
        ^ table[2][((x >> 16) & 0xff) as int] ^ table[3][((x >> 24) & 0xff) as int]
}

/// Simple tabulation hash of a 64-bit key: the exclusive-or of one table entry
/// per byte of the key, least significant byte in row 0.
pub open spec fn tab64_hash(table: Seq<Seq<u64>>, x: u64) -> u64 {
    table[0][(x & 0xff) as int] ^ table[1][((x >> 8) & 0xff) as int]
        ^ table[2][((x >> 16) & 0xff) as int] ^ table[3][((x >> 24) & 0xff) as int]
        ^ table[4][((x >> 32) & 0xff) as int] ^ table[5][((x >> 40) & 0xff) as int]
        ^ table[6][((x >> 48) & 0xff) as int] ^ table[7][((x >> 56) & 0xff) as int]
}

/// `Tab32Simple::from_vec` copies a 4 x 256 nested vector into the hasher's table.
/// It asserts both dimensions, so other shapes are excluded here.
pub assume_specification[ Tab32Simple::from_vec ](table_data: Vec<Vec<u32>>) -> (h: Tab32Simple)
    requires
        table_data@.len() == 4,
        forall|i: int| 0 <= i < 4 ==> (#[trigger] table_data@[i])@.len() == 256,
    ensures
        tab32_table(h) == Seq::new(4, |i: int| table_data@[i]@),
;

/// `Tab64Simple::from_vec` copies an 8 x 256 nested vector into the hasher's table.
/// It asserts both dimensions, so other shapes are excluded here.
pub assume_specification[ Tab64Simple::from_vec ](table_data: Vec<Vec<u64>>) -> (h: Tab64Simple)
    requires
        table_data@.len() == 8,
        forall|i: int| 0 <= i < 8 ==> (#[trigger] table_data@[i])@.len() == 256,
    ensures
        tab64_table(h) == Seq::new(8, |i: int| table_data@[i]@),
;

/// `Tab32Simple::hash` folds the four bytes of the key through the table with
/// exclusive-or, starting from zero.
pub assume_specification[ Tab32Simple::hash ](h: &Tab32Simple, x: u32) -> (r: u32)
    ensures
        r == tab32_hash(tab32_table(*h), x),
;

/// `Tab64Simple::hash` folds the eight bytes of the key through the table with
/// exclusive-or, starting from zero.
pub assume_specification[ Tab64Simple::hash ](h: &Tab64Simple, x: u64) -> (r: u64)
    ensures
        r == tab64_hash(tab64_table(*h), x),
;

/// The state of a generator: the 624 words of its state vector, followed by its
/// index into them.
pub uninterp spec fn mt_state(rng: MT19937) -> Seq<u32>;

/// What one draw of 32 bits makes of a state: the word drawn, and the state that
/// the draw leaves.
pub uninterp spec fn mt_step(state: Seq<u32>) -> (u32, Seq<u32>);

/// The state that `n` draws of 32 bits leave.
pub open spec fn mt_after(state: Seq<u32>, n: nat) -> Seq<u32>
    decreases n,
{
    if n == 0 {
        state
    } else {
        mt_step(mt_after(state, (n - 1) as nat)).1
    }
}

/// The first `n` words of 32 bits that a generator in this state gives.
pub open spec fn mt_words32(state: Seq<u32>, n: nat) -> Seq<u32>
    decreases n,
{
    if n == 0 {
        Seq::empty()
    } else {
        mt_words32(state, (n - 1) as nat).push(mt_step(mt_after(state, (n - 1) as nat)).0)
    }
}

/// The word of 64 bits that a generator in this state gives: two draws of 32
/// bits, the first of them the low half.
pub open spec fn mt_word64(state: Seq<u32>) -> u64 {
    ((mt_step(mt_step(state).1).0 as u64) << 32) | (mt_step(state).0 as u64)
}

/// The first `n` words of 64 bits that a generator in this state gives. They
/// leave the state that `2 * n` draws of 32 bits leave.
pub open spec fn mt_words64(state: Seq<u32>, n: nat) -> Seq<u64>
    decreases n,
{
    if n == 0 {
        Seq::empty()
    } else {
        mt_words64(state, (n - 1) as nat).push(mt_word64(mt_after(state, (2 * (n - 1)) as nat)))
    }
}

/// The next 32-bit output of the Mersenne Twister, `rand_core::Rng::next_u32`
/// on `MT19937`, which is its `gen_u32`. The word and the state left are
/// functions of the state alone: `gen_u32` reads and writes nothing else. It
/// cannot panic: its one sum that does not wrap, in the seeding of a generator
/// that was never seeded, stays below `2^32` at each of its 623 steps for the
/// built-in seed 5489.
#[verifier::external_body]
fn next_u32(rng: &mut MT19937) -> (word: u32)
    ensures
        word == mt_step(mt_state(*old(rng))).0,
        mt_state(*final(rng)) == mt_step(mt_state(*old(rng))).1,
{
    rand_core::Rng::next_u32(rng)
}

/// The next 64-bit output of the Mersenne Twister, `rand_core::Rng::next_u64`
/// on `MT19937`, which is `rand_core::utils::next_u64_via_u32`: two draws of 32
/// bits, of which the first becomes the low half and the second the high half.
#[verifier::external_body]
fn next_u64(rng: &mut MT19937) -> (word: u64)
    ensures
        word == mt_word64(mt_state(*old(rng))),
        mt_state(*final(rng)) == mt_step(mt_step(mt_state(*old(rng))).1).1,
{
    rand_core::Rng::next_u64(rng)
}

/// Draws `n` words of 32 bits from `rng`.
pub fn draw_words32(rng: &mut MT19937, n: usize) -> (words: Vec<u32>)
    ensures
        words@ == mt_words32(mt_state(*old(rng)), n as nat),
        words@.len() == n,
        mt_state(*final(rng)) == mt_after(mt_state(*old(rng)), n as nat),
{
    let ghost begin = mt_state(*rng);
    let mut words: Vec<u32> = Vec::new();
    let mut i: usize = 0;
    while i < n
        invariant
            i <= n,
            words@.len() == i,
            words@ == mt_words32(begin, i as nat),
            mt_state(*rng) == mt_after(begin, i as nat),
        decreases n - i,
    {
        let word = next_u32(rng);
        words.push(word);
        i += 1;
    }
    words
}

/// Draws `n` words of 64 bits from `rng`.
pub fn draw_words64(rng: &mut MT19937, n: usize) -> (words: Vec<u64>)
    ensures
        words@ == mt_words64(mt_state(*old(rng)), n as nat),
        words@.len() == n,
        mt_state(*final(rng)) == mt_after(mt_state(*old(rng)), (2 * n) as nat),
{
    let ghost begin = mt_state(*rng);
    let mut words: Vec<u64> = Vec::new();
    let mut i: usize = 0;
    while i < n
        invariant
            i <= n,
            words@.len() == i,
            words@ == mt_words64(begin, i as nat),
            mt_state(*rng) == mt_after(begin, (2 * i) as nat),
        decreases n - i,
    {
        assert(mt_after(begin, (2 * i + 2) as nat) == mt_step(mt_step(mt_after(begin, (2 * i) as nat)).1).1) by {
            assert(mt_after(begin, (2 * i + 1) as nat) == mt_step(mt_after(begin, (2 * i) as nat)).1);
        }
        let word = next_u64(rng);
        words.push(word);
        i += 1;
    }
    words
}

/// Entry `j` of row `i` when `words` is laid out row by row.
pub open spec fn table_of_words<T>(words: Seq<T>, rows: int) -> Seq<Seq<T>> {
    Seq::new(rows as nat, |i: int| words.subrange(256 * i, 256 * i + 256))
}

/// Cuts the `256 * rows` words of `words` from `from` on into `rows` rows of 256.
fn rows_of<T: Copy>(words: &Vec<T>, from: usize, rows: usize) -> (table: Vec<Vec<T>>)
    requires
        from + 256 * rows <= words@.len(),
    ensures
        table@.len() == rows,
        forall|i: int| 0 <= i < rows ==> (#[trigger] table@[i])@ == words@.subrange(
            from + 256 * i,
            from + 256 * i + 256,
        ),
{
    let mut table: Vec<Vec<T>> = Vec::new();
    let n = words.len();
    let mut i: usize = 0;
    while i < rows
        invariant
            i <= rows,
            n == words@.len(),
            from + 256 * rows <= n,
            table@.len() == i,
            forall|a: int| 0 <= a < i ==> (#[trigger] table@[a])@ == words@.subrange(
                from + 256 * a,
                from + 256 * a + 256,
            ),
        decreases rows - i,
    {
        let mut row: Vec<T> = Vec::new();
        let mut j: usize = 0;
        while j < 256
            invariant
                i < rows,
                j <= 256,
                n == words@.len(),
                from + 256 * rows <= n,
                row@ == words@.subrange(from + 256 * i, from + 256 * i + j),
            decreases 256 - j,
        {
            row.push(words[from + 256 * i + j]);
            j += 1;
        }
        table.push(row);
        i += 1;
    }
    table
}

/// The table of a 32-bit hasher made of the 1024 words of `words` from `from`
/// on, laid out row by row.
pub open spec fn table32_at(words: Seq<u32>, from: int) -> Seq<Seq<u32>> {
    table_of_words(words.subrange(from, from + 1024), 4)
}

/// The table of a 64-bit hasher made of the 2048 words of `words` from `from`
/// on, laid out row by row.
pub open spec fn table64_at(words: Seq<u64>, from: int) -> Seq<Seq<u64>> {
    table_of_words(words.subrange(from, from + 2048), 8)
}

/// Lays the 1024 words of `words` from `from` on out row by row as the table of
/// a 32-bit hasher.
pub fn tab32_at(words: &Vec<u32>, from: usize) -> (h: Tab32Simple)
    requires
        from + 1024 <= words@.len(),
    ensures
        tab32_table(h) == table32_at(words@, from as int),
        is_table(tab32_table(h), 4),
{
    let h = Tab32Simple::from_vec(rows_of(words, from, 4));
    assert forall|i: int| 0 <= i < 4 implies words@.subrange(from + 256 * i, from + 256 * i + 256)
        == #[trigger] table32_at(words@, from as int)[i] by {
        assert(words@.subrange(from + 256 * i, from + 256 * i + 256) =~= words@.subrange(
            from as int,
            from + 1024,
        ).subrange(256 * i, 256 * i + 256));
    }
    assert(tab32_table(h) =~= table32_at(words@, from as int));
    h
}

/// Lays the 2048 words of `words` from `from` on out row by row as the table of
/// a 64-bit hasher.
pub fn tab64_at(words: &Vec<u64>, from: usize) -> (h: Tab64Simple)
    requires
        from + 2048 <= words@.len(),
    ensures
        tab64_table(h) == table64_at(words@, from as int),
        is_table(tab64_table(h), 8),
{
    let h = Tab64Simple::from_vec(rows_of(words, from, 8));
    assert forall|i: int| 0 <= i < 8 implies words@.subrange(from + 256 * i, from + 256 * i + 256)
        == #[trigger] table64_at(words@, from as int)[i] by {
        assert(words@.subrange(from + 256 * i, from + 256 * i + 256) =~= words@.subrange(
            from as int,
            from + 2048,
        ).subrange(256 * i, 256 * i + 256));
    }
    assert(tab64_table(h) =~= table64_at(words@, from as int));
    h
}

/// Lays 1024 words out row by row as the table of a 32-bit hasher.
pub fn tab32_from_words(words: &Vec<u32>) -> (h: Tab32Simple)
    requires
        words@.len() == 1024,
    ensures
        tab32_table(h) == table_of_words(words@, 4),
        is_table(tab32_table(h), 4),
{
    assert(words@.subrange(0, 1024) == words@);
    tab32_at(words, 0)
}

/// Draws 1024 words from `rng` and lays them out row by row as the table of a
/// 32-bit hasher.
pub fn tab32_from_rng(rng: &mut MT19937) -> (h: Tab32Simple)
    ensures
        tab32_table(h) == table_of_words(mt_words32(mt_state(*old(rng)), 1024), 4),
        mt_state(*final(rng)) == mt_after(mt_state(*old(rng)), 1024),
        is_table(tab32_table(h), 4),
{
    let words = draw_words32(rng, 1024);
    tab32_from_words(&words)
}

/// Lays 2048 words out row by row as the table of a 64-bit hasher.
pub fn tab64_from_words(words: &Vec<u64>) -> (h: Tab64Simple)
    requires
        words@.len() == 2048,
    ensures
        tab64_table(h) == table_of_words(words@, 8),
        is_table(tab64_table(h), 8),
{
    assert(words@.subrange(0, 2048) == words@);
    tab64_at(words, 0)
}

/// Draws 2048 words from `rng` and lays them out row by row as the table of a
/// 64-bit hasher.
pub fn tab64_from_rng(rng: &mut MT19937) -> (h: Tab64Simple)
    ensures
        tab64_table(h) == table_of_words(mt_words64(mt_state(*old(rng)), 2048), 8),
        mt_state(*final(rng)) == mt_after(mt_state(*old(rng)), 4096),
        is_table(tab64_table(h), 8),
{
    let words = draw_words64(rng, 2048);
    tab64_from_words(&words)
}

/// Draws in two runs leave what the draws in one run leave.
pub proof fn lemma_mt_after_add(state: Seq<u32>, a: nat, b: nat)
    ensures
        mt_after(mt_after(state, a), b) == mt_after(state, a + b),
    decreases b,
{
    if b > 0 {
        lemma_mt_after_add(state, a, (b - 1) as nat);
    }
}

/// Splits a hash into its high and low halves. Each half, divided by
/// `2^32 - 1`, is one uniform variate; the two are independent.
pub fn to_units(x: u64) -> (halves: (u32, u32))
    ensures
        halves.0 == x / 0x1_0000_0000,
        halves.1 == x % 0x1_0000_0000,
{
    let hi = x >> 32;
    let lo = x & 0xFFFF_FFFF;
    assert(x >> 32 == x / 0x1_0000_0000) by (bit_vector);
    assert(x & 0xFFFF_FFFF == x % 0x1_0000_0000) by (bit_vector);
    (hi as u32, lo as u32)
}

} // verus!
