use vstd::prelude::*;
use crate::player::Player;

verus! {

/// Shortest pause of the computer before its first move, in milliseconds.
pub const COMPUTER_DELAY_MIN_MS: u64 = 1_100;
/// Longest pause of the computer before its first move, in milliseconds.
pub const COMPUTER_DELAY_MAX_MS: u64 = 2_400;
/// Shortest pause of the computer before it answers a move, in milliseconds.
pub const COMPUTER_REPLY_DELAY_MIN_MS: u64 = 450;
/// Longest pause of the computer before it answers a move, in milliseconds.
pub const COMPUTER_REPLY_DELAY_MAX_MS: u64 = 900;
/// Shortest pause of the computer in speed mode, in milliseconds.
pub const SPEED_DELAY_MIN_MS: u64 = 80;
/// Longest pause of the computer in speed mode, in milliseconds.
pub const SPEED_DELAY_MAX_MS: u64 = 180;

/// The bit mixer (the finaliser of SplitMix64).
pub open spec fn mix(x: u64) -> u64 {
    let a = x ^ (x >> 30u64);
    let b = a.wrapping_mul(0xbf58_476d_1ce4_e5b9u64);
    let c = b ^ (b >> 27u64);
    let d = c.wrapping_mul(0x94d0_49bb_1331_11ebu64);
    d ^ (d >> 31u64)
}

/// Spreads the bits of `x` over the whole word.
pub fn mix_u64(x: u64) -> (res: u64)
    ensures
        res == mix(x),
{
    let mut x = x;
    x ^= x >> 30u64;
    x = x.wrapping_mul(0xbf58_476d_1ce4_e5b9u64);
    x ^= x >> 27u64;
    x = x.wrapping_mul(0x94d0_49bb_1331_11ebu64);
    x ^ (x >> 31u64)
}

/// The random word made from a clock reading and a call counter.
pub open spec fn seed(nanos: u64, count: u64) -> u64 {
    mix(nanos ^ count.wrapping_mul(0x9e37_79b9_7f4a_7c15u64))
}

/// Mixes a clock reading in nanoseconds with the number of earlier draws, so
/// that two draws in the same clock tick differ.
pub fn random_seed(nanos: u64, count: u64) -> (res: u64)
    ensures
        res == seed(nanos, count),
{
    mix_u64(nanos ^ count.wrapping_mul(0x9e37_79b9_7f4a_7c15u64))
}

/// The index that the random word `raw` picks among `len` items (0 when
/// there are none).
pub open spec fn index_of(raw: u64, len: nat) -> int {
    if len == 0 {
        0
    } else {
        (raw as usize) as int % (len as int)
    }
}

/// Picks an index below `len` with the random word `raw`; 0 when `len` is 0.
pub fn random_index(raw: u64, len: usize) -> (res: usize)
    ensures
        res as int == index_of(raw, len as nat),
        len > 0 ==> res < len,
        len == 0 ==> res == 0,
{
    if len == 0 {
        return 0;
    }
    (raw as usize) % len
}

/// The side that the random word `raw` gives the computer.
pub open spec fn player_of(raw: u64) -> Player {
    if index_of(raw, 2) == 0 {
        Player::Black
    } else {
        Player::White
    }
}

/// Picks a side with the random word `raw`.
pub fn random_player(raw: u64) -> (res: Player)
    ensures
        res == player_of(raw),
{
    if random_index(raw, 2) == 0 {
        Player::Black
    } else {
        Player::White
    }
}

/// The bounds of the computer's pause, in milliseconds.
pub open spec fn delay_bounds(after_human_move: bool, speed_mode: bool) -> (u64, u64) {
    if speed_mode {
        (SPEED_DELAY_MIN_MS, SPEED_DELAY_MAX_MS)
    } else if after_human_move {
        (COMPUTER_REPLY_DELAY_MIN_MS, COMPUTER_REPLY_DELAY_MAX_MS)
    } else {
        (COMPUTER_DELAY_MIN_MS, COMPUTER_DELAY_MAX_MS)
    }
}

/// The computer's pause that the random word `raw` picks, in milliseconds.
pub open spec fn delay_of(after_human_move: bool, speed_mode: bool, raw: u64) -> int {
    let (min, max) = delay_bounds(after_human_move, speed_mode);
    min + index_of(raw, (max - min + 1) as nat)
}

/// How long the computer pauses before it moves, in milliseconds: drawn with
/// `raw` from a range that is shorter in speed mode and when it answers a move.
pub fn random_computer_delay(after_human_move: bool, speed_mode: bool, raw: u64) -> (res: u64)
    ensures
        res == delay_of(after_human_move, speed_mode, raw),
        delay_bounds(after_human_move, speed_mode).0 <= res <= delay_bounds(after_human_move, speed_mode).1,
{
    let (min, max) = if speed_mode {
        (SPEED_DELAY_MIN_MS, SPEED_DELAY_MAX_MS)
    } else if after_human_move {
        (COMPUTER_REPLY_DELAY_MIN_MS, COMPUTER_REPLY_DELAY_MAX_MS)
    } else {
        (COMPUTER_DELAY_MIN_MS, COMPUTER_DELAY_MAX_MS)
    };
    let span = max - min + 1;
    min + random_index(raw, span as usize) as u64
}

/// Each step of the mixer, and the counter's multiplier, has an inverse.
proof fn lemma_mix_steps_undone(x: u64)
    ensures
        ({
            let a = x ^ (x >> 30u64);
            a ^ (a >> 30u64) ^ (a >> 60u64) == x
        }),
        ({
            let b = x ^ (x >> 27u64);
            b ^ (b >> 27u64) ^ (b >> 54u64) == x
        }),
        ({
            let d = x ^ (x >> 31u64);
            d ^ (d >> 31u64) ^ (d >> 62u64) == x
        }),
        x.wrapping_mul(0xbf58_476d_1ce4_e5b9u64).wrapping_mul(0x96de_1b17_3f11_9089u64) == x,
        x.wrapping_mul(0x94d0_49bb_1331_11ebu64).wrapping_mul(0x3196_42b2_d24d_8ec3u64) == x,
        x.wrapping_mul(0x9e37_79b9_7f4a_7c15u64).wrapping_mul(0xf1de_83e1_9937_733du64) == x,
{
    assert((x ^ (x >> 30u64)) ^ ((x ^ (x >> 30u64)) >> 30u64) ^ ((x ^ (x >> 30u64)) >> 60u64) == x)
        by (bit_vector);
    assert((x ^ (x >> 27u64)) ^ ((x ^ (x >> 27u64)) >> 27u64) ^ ((x ^ (x >> 27u64)) >> 54u64) == x)
        by (bit_vector);
    assert((x ^ (x >> 31u64)) ^ ((x ^ (x >> 31u64)) >> 31u64) ^ ((x ^ (x >> 31u64)) >> 62u64) == x)
        by (bit_vector);
    assert(x.wrapping_mul(0xbf58_476d_1ce4_e5b9u64).wrapping_mul(0x96de_1b17_3f11_9089u64) == x)
        by (bit_vector);
    assert(x.wrapping_mul(0x94d0_49bb_1331_11ebu64).wrapping_mul(0x3196_42b2_d24d_8ec3u64) == x)
        by (bit_vector);
    assert(x.wrapping_mul(0x9e37_79b9_7f4a_7c15u64).wrapping_mul(0xf1de_83e1_9937_733du64) == x)
        by (bit_vector);
}

/// Undoes the mixer: each of its steps can be reversed.
pub open spec fn unmix(y: u64) -> u64 {
    let d = y ^ (y >> 31u64) ^ (y >> 62u64);
    let c = d.wrapping_mul(0x3196_42b2_d24d_8ec3u64);
    let b = c ^ (c >> 27u64) ^ (c >> 54u64);
    let a = b.wrapping_mul(0x96de_1b17_3f11_9089u64);
    a ^ (a >> 30u64) ^ (a >> 60u64)
}

/// The mixer loses nothing: `unmix` gives back its input, so distinct words
/// mix to distinct words; and it keeps 0 at 0.
pub proof fn law_mix_is_a_bijection(x: u64, y: u64)
    ensures
        unmix(mix(x)) == x,
        mix(x) == mix(y) ==> x == y,
        mix(0) == 0,
{
    let a = x ^ (x >> 30u64);
    let b = a.wrapping_mul(0xbf58_476d_1ce4_e5b9u64);
    let c = b ^ (b >> 27u64);
    let d = c.wrapping_mul(0x94d0_49bb_1331_11ebu64);
    lemma_mix_steps_undone(x);
    lemma_mix_steps_undone(b);
    lemma_mix_steps_undone(d);
    lemma_mix_steps_undone(c);
    lemma_mix_steps_undone(a);
    if mix(x) == mix(y) {
        let a2 = y ^ (y >> 30u64);
        let b2 = a2.wrapping_mul(0xbf58_476d_1ce4_e5b9u64);
        let c2 = b2 ^ (b2 >> 27u64);
        let d2 = c2.wrapping_mul(0x94d0_49bb_1331_11ebu64);
        lemma_mix_steps_undone(y);
        lemma_mix_steps_undone(b2);
        lemma_mix_steps_undone(d2);
        lemma_mix_steps_undone(c2);
        lemma_mix_steps_undone(a2);
    }
    assert(mix(0) == 0) by {
        assert(0u64 ^ (0u64 >> 30u64) == 0u64) by (bit_vector);
        assert(0u64.wrapping_mul(0xbf58_476d_1ce4_e5b9u64) == 0u64);
        assert(0u64 ^ (0u64 >> 27u64) == 0u64) by (bit_vector);
        assert(0u64.wrapping_mul(0x94d0_49bb_1331_11ebu64) == 0u64);
        assert(0u64 ^ (0u64 >> 31u64) == 0u64) by (bit_vector);
    }
}

/// Two draws that read the same clock value but different counter values
/// give different random words, so repeated draws within one clock tick do
/// not repeat.
pub proof fn law_seed_separates_draws(nanos: u64, c1: u64, c2: u64)
    requires
        c1 != c2,
    ensures
        seed(nanos, c1) != seed(nanos, c2),
{
    let k1 = c1.wrapping_mul(0x9e37_79b9_7f4a_7c15u64);
    let k2 = c2.wrapping_mul(0x9e37_79b9_7f4a_7c15u64);
    lemma_mix_steps_undone(c1);
    lemma_mix_steps_undone(c2);
    assert(k1 != k2);
    assert((nanos ^ k1) ^ nanos == k1) by (bit_vector);
    assert((nanos ^ k2) ^ nanos == k2) by (bit_vector);
    law_mix_is_a_bijection(nanos ^ k1, nanos ^ k2);
}

} // verus!
