//! The MIDI-key-to-frequency table: key `k` maps to
//! `tune · 2^((k - 69) / 12)` Hz, all in Q32.

use vstd::prelude::*;
use crate::db::{exp2_fixed, exp2_fixed_s};
use crate::fixed::{ONE, fmul, fmul_s, div_pos, tdiv, lemma_fmul_bound, lemma_fmul_nonneg, lemma_abs_mul_bound, lemma_tdiv_exact};

verus! {

/// The stock tuning: 440 Hz in Q32.
pub const CONCERT_A: i64 = 1889785610240;

/// The loudest tuning frequency the table accepts: 1024 Hz in Q32.
pub const MAX_TUNE: i64 = 0x400_0000_0000;

/// No table entry exceeds thirty-two times the largest tuning frequency.
pub const MAX_FREQ: i64 = 0x8000_0000_0000;

/// The exponent `(key - 69) / 12` in Q32 octaves.
pub open spec fn semitone_exp(key: int) -> int {
    tdiv((key - 69) * ONE, 12)
}

/// The frequency of a key under a tuning.
pub open spec fn pitch_of(tune: int, key: int) -> int {
    fmul_s(tune, exp2_fixed_s(semitone_exp(key)))
}

/// The immutable 128-entry pitch table.
pub struct PitchConvert {
    pub table: Vec<i64>,
}

impl PitchConvert {
    /// The invariant: 128 entries, each a bounded nonnegative frequency.
    pub open spec fn wf(&self) -> bool {
        &&& self.table@.len() == 128
        &&& forall|i: int| 0 <= i < 128 ==> 0 <= #[trigger] self.table@[i] <= MAX_FREQ
    }

    /// Builds the table for a tuning frequency.
    pub fn new(tune_freq: i64) -> (r: PitchConvert)
        requires
            0 <= tune_freq <= MAX_TUNE,
        ensures
            r.wf(),
            forall|k: int| 0 <= k < 128 ==> #[trigger] r.table@[k] == pitch_of(tune_freq as int, k),
    {
        let mut table: Vec<i64> = Vec::new();
        let mut key: usize = 0;
        while key < 128
            invariant
                0 <= key <= 128,
                table@.len() == key,
                0 <= tune_freq <= MAX_TUNE,
                forall|i: int| 0 <= i < key ==> 0 <= #[trigger] table@[i] <= MAX_FREQ,
                forall|i: int| 0 <= i < key ==> #[trigger] table@[i] == pitch_of(tune_freq as int, i),
            decreases 128 - key,
        {
            let delta: i64 = key as i64 - 69;
            let e: i64 = if delta >= 0 {
                div_pos(delta * ONE, 12)
            } else {
                -div_pos(-delta * ONE, 12)
            };
            proof {
                vstd::arithmetic::div_mod::lemma_div_is_ordered(
                    if delta >= 0 { delta as int * ONE } else { -(delta as int) * ONE },
                    69 * (ONE as int),
                    12,
                );
                assert(69 * (ONE as int) / 12 < 6 * (ONE as int)) by (nonlinear_arith);
                // the exponent stays below five octaves, so the power of
                // two stays below thirty-two
                if delta >= 0 {
                    vstd::arithmetic::div_mod::lemma_div_is_ordered(delta as int * ONE, 58 * (ONE as int), 12);
                    assert(58 * (ONE as int) < 12 * (5 * (ONE as int))) by (nonlinear_arith);
                    vstd::arithmetic::div_mod::lemma_multiply_divide_lt(58 * (ONE as int), 12, 5 * (ONE as int));
                }
            }
            let h = exp2_fixed(e);
            proof {
                lemma_abs_mul_bound(tune_freq as int, h as int, MAX_TUNE as int, 32 * (ONE as int));
                lemma_fmul_bound(tune_freq as int, h as int, MAX_TUNE as int, 32 * (ONE as int));
                lemma_fmul_nonneg(tune_freq as int, h as int);
                lemma_tdiv_exact(MAX_FREQ as int, ONE as int);
                assert(MAX_TUNE as int * (32 * (ONE as int)) == MAX_FREQ as int * ONE) by (nonlinear_arith);
            }
            let f = fmul(tune_freq, h);
            table.push(f);
            key = key + 1;
        }
        PitchConvert { table }
    }

    /// The frequency of a key; out-of-range keys clamp to the last entry.
    pub fn key_to_hz(&self, key: u8) -> (r: i64)
        requires
            self.wf(),
        ensures
            r == if key < 128 { self.table@[key as int] } else { self.table@[127] },
            0 <= r <= MAX_FREQ,
    {
        if (key as usize) < self.table.len() {
            self.table[key as usize]
        } else {
            self.table[self.table.len() - 1]
        }
    }
}

impl Default for PitchConvert {
    /// The table tuned to concert A.
    fn default() -> (r: PitchConvert)
        ensures
            r.wf(),
            forall|k: int| 0 <= k < 128 ==> #[trigger] r.table@[k] == pitch_of(CONCERT_A as int, k),
    {
        PitchConvert::new(CONCERT_A)
    }
}

} // verus!
