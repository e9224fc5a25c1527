//! Band-limited wavetables: the spectral builder, the inverse FFT, the
//! normalizer and the mip-mapped table sets.
//!
//! Every sample is a Q32 fixed-point number, and the whole pipeline is
//! pinned: `spectrum_rel` fixes every bin a waveform's harmonic law
//! populates, `ifft_s` mirrors the radix-2 inverse transform exactly,
//! `normalize_s` mirrors the tight normalizer, and each stored table is
//! proved equal to the normalizer applied to the transform of such a
//! spectrum at its scheduled (halving) harmonic count, with the
//! `max_phase_incr` caps doubling from `2·f0 / fs` upward.

use vstd::prelude::*;
use crate::fixed::{ONE, fmul, fdiv, fmul_s, fdiv_s, tdiv, div_pos, clamp, lemma_fmul_one_bound, lemma_fmul_nonneg, lemma_fmul_nonpos, lemma_abs_mul_bound, lemma_tdiv_exact, lemma_tdiv_bound};
use crate::event::{ControlEvent, Controllable};
use crate::pitch::{PitchConvert, MAX_FREQ};
use crate::types::Shared;
use crate::trig::{sin_turn, cos_turn};
use vstd::arithmetic::power::pow;
use vstd::arithmetic::power2::{pow2, lemma_pow2_pos, lemma_pow2_adds, lemma_pow2_strictly_increases, lemma2_to64};
use vstd::arithmetic::div_mod::{lemma_div_pos_is_pos, lemma_div_is_ordered, lemma_div_by_multiple, lemma_fundamental_div_mod, lemma_remainder_upper, lemma_remainder_lower};

verus! {

/// The magnitude cap every intermediate FFT value respects.
pub const FFT_CAP: i64 = 0x200_0000_0000_0000;

/// The waveform identities the table builder knows.
#[derive(Clone, Copy, Debug, PartialEq, Eq, Structural)]
pub enum Waveform {
    Sine,
    Saw,
    Square,
    Tri,
    SharpTri,
    Random,
}

impl Waveform {
    /// The slot of this waveform in a table-set list.
    pub open spec fn index_s(self) -> int {
        match self {
            Waveform::Sine => 0,
            Waveform::Saw => 1,
            Waveform::Square => 2,
            Waveform::Tri => 3,
            Waveform::SharpTri => 4,
            Waveform::Random => 5,
        }
    }

    /// The slot of this waveform in a table-set list.
    pub fn index(self) -> (r: usize)
        ensures
            r == self.index_s(),
            r < 6,
    {
        match self {
            Waveform::Sine => 0,
            Waveform::Saw => 1,
            Waveform::Square => 2,
            Waveform::Tri => 3,
            Waveform::SharpTri => 4,
            Waveform::Random => 5,
        }
    }
}

/// Relies on `rand::random::<u32>`: a fresh random 32-bit value, here read
/// as a Q32 fraction in `[0, ONE)`. Nothing is assumed of its distribution.
#[verifier::external_body]
fn random_fraction() -> (r: i64)
    ensures
        0 <= r < ONE,
{
    rand::random::<u32>() as i64
}

/// One period of a band-limited waveform and the largest phase increment
/// it may be played at before aliasing.
pub struct Wavetable {
    /// The samples, each in `[-ONE, ONE]`.
    pub table: Vec<i64>,
    /// The largest phase increment (Q32 turns per tick) this table serves.
    pub max_phase_incr: i64,
}

impl Wavetable {
    /// The invariant of a built table.
    pub open spec fn wf(&self) -> bool {
        &&& 1 <= self.table@.len() <= 16384
        &&& forall|i: int| 0 <= i < self.table@.len() ==> -ONE <= #[trigger] self.table@[i] <= ONE
        &&& 0 < self.max_phase_incr
    }

    /// Normalization is tight: some sample sits at exactly `±ONE`, unless
    /// the whole table is zero.
    pub open spec fn tight(&self) -> bool {
        ||| exists|i: int| 0 <= i < self.table@.len() && (#[trigger] self.table@[i] == ONE || self.table@[i] == -ONE)
        ||| forall|i: int| 0 <= i < self.table@.len() ==> #[trigger] self.table@[i] == 0
    }

    /// Where a phase in `(-ONE, ONE)` lands in the table: the scaled
    /// position, its floor index, its ceiling index and the fraction.
    pub open spec fn sample_s(t: Seq<i64>, phasor: int) -> int {
        let ph = if phasor < 0 { phasor + ONE } else { phasor };
        let x = ph * t.len();
        let i = x / (ONE as int);
        let jj = (x + ONE - 1) / (ONE as int);
        let j = if jj == t.len() { 0 } else { jj };
        let frac = x - i * ONE;
        t[i] + fmul_s(t[j] - t[i], frac)
    }

    /// Linear interpolation at a phase in `(-ONE, ONE)`; negative phases
    /// are folded up by one turn.
    pub fn sample(&self, phasor: i64) -> (r: i64)
        requires
            self.wf(),
            -ONE < phasor < ONE,
        ensures
            r == Self::sample_s(self.table@, phasor as int),
            -ONE <= r <= ONE,
    {
        let len = self.table.len();
        let ph = if phasor < 0 {
            phasor + ONE
        } else {
            phasor
        };
        proof {
            assert(0 <= (ph as int) * (len as int) <= (ONE - 1) * 16384int) by (nonlinear_arith)
                requires
                    0 <= (ph as int) <= ONE - 1,
                    1 <= (len as int) <= 16384,
            ;
            assert((ph as int) * (len as int) <= (len as int) * (ONE as int) - 1) by (nonlinear_arith)
                requires
                    (ph as int) <= ONE - 1,
                    1 <= (len as int),
            ;
        }
        let x = ph * (len as i64);
        proof {
            lemma_div_is_ordered(x as int, len as int * (ONE as int) - 1, ONE as int);
            vstd::arithmetic::div_mod::lemma_div_multiples_vanish_fancy(len as int - 1, ONE as int - 1, ONE as int);
            lemma_div_pos_is_pos(x as int, ONE as int);
            lemma_fundamental_div_mod(x as int, ONE as int);
            lemma_remainder_upper(x as int, ONE as int);
            lemma_remainder_lower(x as int, ONE as int);
            lemma_div_is_ordered(x as int + ONE - 1, len as int * (ONE as int) + ONE - 2, ONE as int);
            vstd::arithmetic::div_mod::lemma_div_multiples_vanish_fancy(len as int, ONE as int - 2, ONE as int);
            lemma_div_pos_is_pos(x as int + ONE - 1, ONE as int);
        }
        let i = div_pos(x, ONE);
        let jj = div_pos(x + ONE - 1, ONE);
        let j = if jj == len as i64 {
            0
        } else {
            jj
        };
        let frac = x - i * ONE;
        let ti = self.table[i as usize];
        let tj = self.table[j as usize];
        proof {
            lemma_abs_mul_bound(tj as int - ti as int, frac as int, 2 * ONE as int, ONE as int);
            if tj >= ti {
                lemma_fmul_one_bound(tj as int - ti as int, frac as int, tj as int - ti as int);
                lemma_fmul_nonneg(tj as int - ti as int, frac as int);
            } else {
                lemma_fmul_one_bound(tj as int - ti as int, frac as int, ti as int - tj as int);
                lemma_fmul_nonpos(tj as int - ti as int, frac as int);
            }
        }
        ti + fmul(tj - ti, frac)
    }
}

/// The smallest power of two not below `n`, with its exponent.
fn next_pow2(n: usize) -> (r: (usize, u64))
    requires
        1 <= n <= 16384,
    ensures
        r.0 == pow2(r.1 as nat),
        n <= r.0 < 2 * n,
        r.1 <= 14,
{
    let mut p: usize = 1;
    let mut e: u64 = 0;
    proof {
        lemma2_to64();
    }
    while p < n
        invariant
            1 <= n <= 16384,
            p == pow2(e as nat),
            p < 2 * n,
            e <= 14,
        decreases 2 * n - p,
    {
        proof {
            lemma2_to64();
            lemma_pow2_adds(e as nat, 1);
            if e >= 14 {
                lemma_pow2_strictly_increases(14, e as nat);
                assert(false);
            }
        }
        p = p * 2;
        e = e + 1;
    }
    (p, e)
}

/// The spectrum bin the harmonic law of a waveform puts at index `i`
/// (for `1 <= i < harmonics`): real part one, imaginary part the signed
/// magnitude of the harmonic; zero where the law skips the harmonic.
pub open spec fn det_bin_s(waveform: Waveform, i: int) -> (int, int) {
    match waveform {
        Waveform::Saw | Waveform::Sine => (ONE as int, -((ONE as int) / i)),
        Waveform::Square => if i % 2 == 1 {
            (ONE as int, -((ONE as int) / i))
        } else {
            (0int, 0int)
        },
        Waveform::Tri => if i % 2 == 1 {
            (ONE as int, if i % 4 == 1 {
                -((ONE as int) / (i * i))
            } else {
                (ONE as int) / (i * i)
            })
        } else {
            (0int, 0int)
        },
        Waveform::SharpTri => if i % 2 == 1 {
            (ONE as int, if i % 4 == 1 {
                -((ONE as int) / i)
            } else {
                (ONE as int) / i
            })
        } else {
            (0int, 0int)
        },
        Waveform::Random => (0int, 0int),
    }
}

/// What a built spectrum holds: one harmonic is the pure sine pair on bin
/// one; otherwise bins `1..harmonics` follow the waveform's harmonic law
/// (for `Random`, real part one and a chance imaginary part in
/// `(-1/i, 0]`), each mirrored negated onto bin `table_size - i`, and
/// every other bin is zero.
pub open spec fn spectrum_rel(waveform: Waveform, harmonics: int, table_size: int, sp: Seq<(i64, i64)>) -> bool {
    &&& sp.len() == table_size
    &&& (harmonics == 1 ==> {
        &&& sp[1].0 == ONE && sp[1].1 == -ONE
        &&& sp[table_size - 1].0 == -ONE && sp[table_size - 1].1 == ONE
        &&& forall|i: int| 0 <= i < sp.len() && (i == 0 || 2 <= i <= table_size - 2) ==> #[trigger] sp[i] == (0i64, 0i64)
    })
    &&& (harmonics > 1 ==> {
        &&& forall|i: int| 0 <= i < sp.len() && (i == 0 || harmonics <= i <= table_size - harmonics) ==> #[trigger] sp[i] == (0i64, 0i64)
        &&& forall|i: int| 1 <= i < harmonics ==> {
            &&& (waveform != Waveform::Random ==> ((#[trigger] sp[i]).0 as int, sp[i].1 as int) == det_bin_s(waveform, i))
            &&& (waveform == Waveform::Random ==> sp[i].0 == ONE && -((ONE as int) / i) < sp[i].1 <= 0)
            &&& sp[table_size - i].0 as int == -(sp[i].0 as int)
            &&& sp[table_size - i].1 as int == -(sp[i].1 as int)
        }
    })
}

/// A band-limited spectrum for a waveform, exactly as `spectrum_rel`
/// states: bins `1..harmonics` per the waveform's harmonic law, mirrored
/// negated onto the top bins, zeros elsewhere; every component lies in
/// `[-ONE, ONE]`.
#[verifier::rlimit(100)]
#[verifier::spinoff_prover]
fn generate_spectrum(waveform: Waveform, harmonics: usize, table_size: usize) -> (r: Vec<(i64, i64)>)
    requires
        1 <= harmonics <= 16384,
        4 <= table_size <= 16384,
        2 * harmonics <= table_size,
    ensures
        r@.len() == table_size,
        forall|i: int| 0 <= i < r@.len() ==> -ONE <= #[trigger] r@[i].0 <= ONE && -ONE <= r@[i].1 <= ONE,
        spectrum_rel(waveform, harmonics as int, table_size as int, r@),
{
    let mut spectrum: Vec<(i64, i64)> = Vec::new();
    let mut z: usize = 0;
    while z < table_size
        invariant
            0 <= z <= table_size,
            spectrum@.len() == z,
            forall|m: int| 0 <= m < z ==> #[trigger] spectrum@[m] == (0i64, 0i64),
        decreases table_size - z,
    {
        spectrum.push((0i64, 0i64));
        z = z + 1;
    }
    if harmonics == 1 {
        // a pure sine
        spectrum[1] = (ONE, -ONE);
        spectrum[table_size - 1] = (-ONE, ONE);
        return spectrum;
    }
    match waveform {
        Waveform::Saw | Waveform::Sine => {
            let mut i: usize = 1;
            while i < harmonics
                invariant
                    waveform == Waveform::Saw || waveform == Waveform::Sine,
                    1 <= i <= harmonics,
                    harmonics <= 16384,
                    2 * harmonics <= table_size,
                    spectrum@.len() == table_size,
                    forall|m: int| 0 <= m < spectrum@.len() ==> -ONE <= #[trigger] spectrum@[m].0 <= ONE && -ONE <= spectrum@[m].1 <= ONE,
                    forall|m: int| 0 <= m < spectrum@.len() && (m == 0 || i <= m <= table_size - i) ==> #[trigger] spectrum@[m] == (0i64, 0i64),
                    forall|m: int| 1 <= m < i ==> ((#[trigger] spectrum@[m]).0 as int, spectrum@[m].1 as int) == det_bin_s(waveform, m)
                        && spectrum@[table_size - m].0 as int == -(spectrum@[m].0 as int)
                        && spectrum@[table_size - m].1 as int == -(spectrum@[m].1 as int),
                decreases harmonics - i,
            {
                let magnitude = div_pos(ONE, i as i64);
                spectrum[i] = (ONE, -magnitude);
                spectrum[table_size - i] = (-ONE, magnitude);
                proof {
                    assert forall|m: int| 0 <= m < spectrum@.len() && (m == 0 || i + 1 <= m <= table_size - (i + 1)) implies #[trigger] spectrum@[m] == (0i64, 0i64) by {
                    }
                }
                i = i + 1;
            }
        },
        Waveform::Square => {
            let mut i: usize = 1;
            while i < harmonics
                invariant
                    1 <= i <= harmonics,
                    harmonics <= 16384,
                    2 * harmonics <= table_size,
                    spectrum@.len() == table_size,
                    forall|m: int| 0 <= m < spectrum@.len() ==> -ONE <= #[trigger] spectrum@[m].0 <= ONE && -ONE <= spectrum@[m].1 <= ONE,
                    forall|m: int| 0 <= m < spectrum@.len() && (m == 0 || i <= m <= table_size - i) ==> #[trigger] spectrum@[m] == (0i64, 0i64),
                    forall|m: int| 1 <= m < i ==> ((#[trigger] spectrum@[m]).0 as int, spectrum@[m].1 as int) == det_bin_s(Waveform::Square, m)
                        && spectrum@[table_size - m].0 as int == -(spectrum@[m].0 as int)
                        && spectrum@[table_size - m].1 as int == -(spectrum@[m].1 as int),
                decreases harmonics - i,
            {
                if i % 2 == 1 {
                    let magnitude = div_pos(ONE, i as i64);
                    spectrum[i] = (ONE, -magnitude);
                    spectrum[table_size - i] = (-ONE, magnitude);
                }
                proof {
                    assert forall|m: int| 0 <= m < spectrum@.len() && (m == 0 || i + 1 <= m <= table_size - (i + 1)) implies #[trigger] spectrum@[m] == (0i64, 0i64) by {
                    }
                }
                i = i + 1;
            }
        },
        Waveform::Tri => {
            let mut i: usize = 1;
            while i < harmonics
                invariant
                    1 <= i <= harmonics,
                    harmonics <= 16384,
                    2 * harmonics <= table_size,
                    spectrum@.len() == table_size,
                    forall|m: int| 0 <= m < spectrum@.len() ==> -ONE <= #[trigger] spectrum@[m].0 <= ONE && -ONE <= spectrum@[m].1 <= ONE,
                    forall|m: int| 0 <= m < spectrum@.len() && (m == 0 || i <= m <= table_size - i) ==> #[trigger] spectrum@[m] == (0i64, 0i64),
                    forall|m: int| 1 <= m < i ==> ((#[trigger] spectrum@[m]).0 as int, spectrum@[m].1 as int) == det_bin_s(Waveform::Tri, m)
                        && spectrum@[table_size - m].0 as int == -(spectrum@[m].0 as int)
                        && spectrum@[table_size - m].1 as int == -(spectrum@[m].1 as int),
                decreases harmonics - i,
            {
                if i % 2 == 1 {
                    proof {
                        assert(1 <= (i as int) * (i as int) <= 16384 * 16384) by (nonlinear_arith)
                            requires
                                1 <= (i as int) <= 16384,
                        ;
                    }
                    let magnitude = div_pos(ONE, (i * i) as i64);
                    let im = if i % 4 == 1 {
                        -magnitude
                    } else {
                        magnitude
                    };
                    spectrum[i] = (ONE, im);
                    spectrum[table_size - i] = (-ONE, -im);
                }
                proof {
                    assert forall|m: int| 0 <= m < spectrum@.len() && (m == 0 || i + 1 <= m <= table_size - (i + 1)) implies #[trigger] spectrum@[m] == (0i64, 0i64) by {
                    }
                }
                i = i + 1;
            }
        },
        Waveform::SharpTri => {
            let mut i: usize = 1;
            while i < harmonics
                invariant
                    1 <= i <= harmonics,
                    harmonics <= 16384,
                    2 * harmonics <= table_size,
                    spectrum@.len() == table_size,
                    forall|m: int| 0 <= m < spectrum@.len() ==> -ONE <= #[trigger] spectrum@[m].0 <= ONE && -ONE <= spectrum@[m].1 <= ONE,
                    forall|m: int| 0 <= m < spectrum@.len() && (m == 0 || i <= m <= table_size - i) ==> #[trigger] spectrum@[m] == (0i64, 0i64),
                    forall|m: int| 1 <= m < i ==> ((#[trigger] spectrum@[m]).0 as int, spectrum@[m].1 as int) == det_bin_s(Waveform::SharpTri, m)
                        && spectrum@[table_size - m].0 as int == -(spectrum@[m].0 as int)
                        && spectrum@[table_size - m].1 as int == -(spectrum@[m].1 as int),
                decreases harmonics - i,
            {
                if i % 2 == 1 {
                    let magnitude = div_pos(ONE, i as i64);
                    let im = if i % 4 == 1 {
                        -magnitude
                    } else {
                        magnitude
                    };
                    spectrum[i] = (ONE, im);
                    spectrum[table_size - i] = (-ONE, -im);
                }
                proof {
                    assert forall|m: int| 0 <= m < spectrum@.len() && (m == 0 || i + 1 <= m <= table_size - (i + 1)) implies #[trigger] spectrum@[m] == (0i64, 0i64) by {
                    }
                }
                i = i + 1;
            }
        },
        Waveform::Random => {
            let mut i: usize = 1;
            while i < harmonics
                invariant
                    1 <= i <= harmonics,
                    harmonics <= 16384,
                    2 * harmonics <= table_size,
                    spectrum@.len() == table_size,
                    forall|m: int| 0 <= m < spectrum@.len() ==> -ONE <= #[trigger] spectrum@[m].0 <= ONE && -ONE <= spectrum@[m].1 <= ONE,
                    forall|m: int| 0 <= m < spectrum@.len() && (m == 0 || i <= m <= table_size - i) ==> #[trigger] spectrum@[m] == (0i64, 0i64),
                    forall|m: int| 1 <= m < i ==> (#[trigger] spectrum@[m]).0 == ONE && -((ONE as int) / m) < spectrum@[m].1 <= 0
                        && spectrum@[table_size - m].0 as int == -(spectrum@[m].0 as int)
                        && spectrum@[table_size - m].1 as int == -(spectrum@[m].1 as int),
                decreases harmonics - i,
            {
                let magnitude = div_pos(ONE, i as i64);
                let noise = random_fraction();
                proof {
                    vstd::arithmetic::div_mod::lemma_div_non_zero(ONE as int, i as int);
                    lemma_abs_mul_bound(noise as int, magnitude as int, ONE as int, ONE as int);
                    lemma_fmul_one_bound(noise as int, magnitude as int, ONE as int);
                    lemma_fmul_nonneg(noise as int, magnitude as int);
                    // the scaled noise stays strictly below the magnitude
                    assert((noise as int) * (magnitude as int) < (ONE as int) * (magnitude as int)) by (nonlinear_arith)
                        requires
                            0 <= (noise as int) < (ONE as int),
                            1 <= (magnitude as int),
                    ;
                    assert(0 <= (noise as int) * (magnitude as int)) by (nonlinear_arith)
                        requires
                            0 <= (noise as int) && 0 <= (magnitude as int),
                    ;
                    vstd::arithmetic::div_mod::lemma_multiply_divide_lt((noise as int) * (magnitude as int), ONE as int, magnitude as int);
                    assert(((noise as int) * (magnitude as int)) / (ONE as int) < magnitude as int);
                    assert(fmul_s(noise as int, magnitude as int) == ((noise as int) * (magnitude as int)) / (ONE as int));
                    assert(fmul_s(noise as int, magnitude as int) < magnitude as int);
                }
                let im = -fmul(noise, magnitude);
                assert(-ONE <= im <= ONE);
                spectrum[i] = (ONE, im);
                assert(forall|m: int| 0 <= m < spectrum@.len() ==> -ONE <= #[trigger] spectrum@[m].0 <= ONE && -ONE <= spectrum@[m].1 <= ONE);
                spectrum[table_size - i] = (-ONE, -im);
                assert(forall|m: int| 0 <= m < spectrum@.len() ==> -ONE <= #[trigger] spectrum@[m].0 <= ONE && -ONE <= spectrum@[m].1 <= ONE);
                i = i + 1;
            }
        },
    }
    spectrum
}
/// One odd-half value under the inverse twiddle at `a` turns.
pub open spec fn twiddled_s(o: (i64, i64), a: int) -> (int, int) {
    let wr = crate::trig::cos_turn_s(a);
    let wi = crate::trig::sin_turn_s(a);
    (
        fmul_s(wr, o.0 as int) - fmul_s(wi, o.1 as int),
        fmul_s(wr, o.1 as int) + fmul_s(wi, o.0 as int),
    )
}

/// The lower half of a butterfly: even plus the twiddled odd.
pub open spec fn butterfly_lo_s(e: (i64, i64), o: (i64, i64), a: int) -> (i64, i64) {
    let t = twiddled_s(o, a);
    (((e.0 as int) + t.0) as i64, ((e.1 as int) + t.1) as i64)
}

/// The upper half of a butterfly: even minus the twiddled odd.
pub open spec fn butterfly_hi_s(e: (i64, i64), o: (i64, i64), a: int) -> (i64, i64) {
    let t = twiddled_s(o, a);
    (((e.0 as int) - t.0) as i64, ((e.1 as int) - t.1) as i64)
}

/// The value the radix-2 inverse FFT computes: split even and odd,
/// transform each half, and recombine with the inverse twiddles at
/// multiples of `ONE / len` turns.
pub open spec fn ifft_s(x: Seq<(i64, i64)>) -> Seq<(i64, i64)>
    decreases x.len(),
{
    if x.len() <= 1 {
        x
    } else {
        let half = x.len() as int / 2;
        let ev = ifft_s(Seq::new(half as nat, |m: int| x[2 * m]));
        let od = ifft_s(Seq::new(half as nat, |m: int| x[2 * m + 1]));
        let step = (ONE as int) / (x.len() as int);
        Seq::new(
            x.len(),
            |j: int|
                if j < half {
                    butterfly_lo_s(ev[j], od[j], j * step)
                } else {
                    butterfly_hi_s(ev[j - half], od[j - half], (j - half) * step)
                },
        )
    }
}

/// An unnormalized inverse FFT, radix-2 by even/odd split. The contract
/// carries the magnitude bound through the butterflies: each level can at
/// most triple a component bound.
#[verifier::rlimit(100)]
#[verifier::spinoff_prover]
fn ifft(x: &Vec<(i64, i64)>, Ghost(k): Ghost<nat>, Ghost(b): Ghost<int>) -> (r: Vec<(i64, i64)>)
    requires
        x@.len() == pow2(k),
        k <= 14,
        0 <= b,
        b * pow(3, k) <= FFT_CAP,
        forall|i: int| 0 <= i < x@.len() ==> -b <= #[trigger] x@[i].0 <= b && -b <= x@[i].1 <= b,
    ensures
        r@.len() == x@.len(),
        forall|i: int| 0 <= i < r@.len() ==> -(b * pow(3, k)) <= #[trigger] r@[i].0 <= b * pow(3, k) && -(b * pow(3, k)) <= r@[i].1 <= b * pow(3, k),
        r@ == ifft_s(x@),
    decreases k,
{
    proof {
        lemma_pow2_pos(k);
        vstd::arithmetic::power::lemma_pow_positive(3, k);
        assert(b * 1 <= b * pow(3, k)) by (nonlinear_arith)
            requires
                0 <= b,
                1 <= pow(3, k),
        ;
    }
    let n = x.len();
    if n == 1 {
        proof {
            if k != 0 {
                lemma_pow2_strictly_increases(0, k);
                lemma2_to64();
                assert(false);
            }
            vstd::arithmetic::power::lemma_pow0(3);
        }
        let mut out: Vec<(i64, i64)> = Vec::new();
        out.push(x[0]);
        proof {
            assert(out@ =~= x@);
        }
        return out;
    }
    proof {
        if k == 0 {
            lemma2_to64();
            assert(false);
        }
        lemma_pow2_adds((k - 1) as nat, 1);
        lemma2_to64();
        lemma_pow2_pos((k - 1) as nat);
        if k < 14 {
            lemma_pow2_strictly_increases(k, 14);
        }
    }
    let half = n / 2;
    let mut even: Vec<(i64, i64)> = Vec::new();
    let mut odd: Vec<(i64, i64)> = Vec::new();
    let mut i: usize = 0;
    while i < half
        invariant
            x@.len() == 2 * half,
            half <= 8192,
            0 <= i <= half,
            even@.len() == i,
            odd@.len() == i,
            forall|m: int| 0 <= m < x@.len() ==> -b <= #[trigger] x@[m].0 <= b && -b <= x@[m].1 <= b,
            forall|m: int| 0 <= m < i ==> even@[m] == x@[2 * m] && odd@[m] == x@[2 * m + 1],
        decreases half - i,
    {
        even.push(x[2 * i]);
        odd.push(x[2 * i + 1]);
        i = i + 1;
    }
    proof {
        assert(even@ =~= Seq::new(half as nat, |m: int| x@[2 * m]));
        assert(odd@ =~= Seq::new(half as nat, |m: int| x@[2 * m + 1]));
        assert(forall|m: int| 0 <= m < half ==> -b <= #[trigger] even@[m].0 <= b && -b <= even@[m].1 <= b);
        assert(forall|m: int| 0 <= m < half ==> -b <= #[trigger] odd@[m].0 <= b && -b <= odd@[m].1 <= b);
        assert(pow(3, k) == 3 * pow(3, (k - 1) as nat)) by {
            vstd::arithmetic::power::lemma_pow_adds(3, 1nat, (k - 1) as nat);
            vstd::arithmetic::power::lemma_pow1(3);
        }
        assert(b * pow(3, (k - 1) as nat) * 3 == b * pow(3, k)) by (nonlinear_arith)
            requires
                pow(3, k) == 3 * pow(3, (k - 1) as nat),
        ;
        assert(b * pow(3, (k - 1) as nat) <= b * pow(3, k)) by (nonlinear_arith)
            requires
                0 <= b,
                1 <= pow(3, (k - 1) as nat),
                pow(3, k) == 3 * pow(3, (k - 1) as nat),
        ;
        vstd::arithmetic::power::lemma_pow_positive(3, (k - 1) as nat);
    }
    let ev = ifft(&even, Ghost((k - 1) as nat), Ghost(b));
    let od = ifft(&odd, Ghost((k - 1) as nat), Ghost(b));
    let ghost b2 = b * pow(3, (k - 1) as nat);
    let ghost b3 = b * pow(3, k);
    proof {
        assert(forall|m: int| 0 <= m < half ==> -b2 <= #[trigger] ev@[m].0 <= b2 && -b2 <= ev@[m].1 <= b2);
        assert(forall|m: int| 0 <= m < half ==> -b2 <= #[trigger] od@[m].0 <= b2 && -b2 <= od@[m].1 <= b2);
    }
    // the twiddle step in turns: ONE / n, exact because n divides ONE
    proof {
        lemma_pow2_adds((32 - k) as nat, k);
        lemma_div_by_multiple(pow2((32 - k) as nat) as int, pow2(k) as int);
        lemma_pow2_strictly_increases((32 - k) as nat, 32);
        lemma2_to64();
    }
    let step = div_pos(ONE, n as i64);
    proof {
        lemma_pow2_strictly_increases((32 - k) as nat, 32);
        lemma_pow2_pos((32 - k) as nat);
    }
    let mut lo: Vec<(i64, i64)> = Vec::new();
    let mut hi: Vec<(i64, i64)> = Vec::new();
    let mut j: usize = 0;
    while j < half
        invariant
            0 <= j <= half,
            half <= 8192,
            half == pow2((k - 1) as nat),
            k <= 14,
            lo@.len() == j,
            hi@.len() == j,
            0 <= b2,
            3 * b2 == b3,
            b3 <= FFT_CAP,
            0 < step <= ONE,
            step * (2 * half) == ONE,
            ev@.len() == half,
            od@.len() == half,
            forall|m: int| 0 <= m < half ==> -b2 <= #[trigger] ev@[m].0 <= b2 && -b2 <= ev@[m].1 <= b2,
            forall|m: int| 0 <= m < half ==> -b2 <= #[trigger] od@[m].0 <= b2 && -b2 <= od@[m].1 <= b2,
            forall|m: int| 0 <= m < j ==> -b3 <= #[trigger] lo@[m].0 <= b3 && -b3 <= lo@[m].1 <= b3,
            forall|m: int| 0 <= m < j ==> -b3 <= #[trigger] hi@[m].0 <= b3 && -b3 <= hi@[m].1 <= b3,
            forall|m: int| 0 <= m < j ==> #[trigger] lo@[m] == butterfly_lo_s(ev@[m], od@[m], m * (step as int)),
            forall|m: int| 0 <= m < j ==> #[trigger] hi@[m] == butterfly_hi_s(ev@[m], od@[m], m * (step as int)),
        decreases half - j,
    {
        proof {
            assert(0 <= (j as int) * (step as int) && (j as int) * (step as int) < ONE) by (nonlinear_arith)
                requires
                    0 <= (j as int),
                    (j as int) < (half as int),
                    0 < (step as int),
                    (step as int) * (2 * (half as int)) == ONE as int,
            ;
        }
        let a = (j as i64) * step;
        let wr = cos_turn(a);
        let wi = sin_turn(a);
        let (er, ei) = ev[j];
        let (or_, oi) = od[j];
        proof {
            lemma_abs_mul_bound(wr as int, or_ as int, ONE as int, b2);
            lemma_abs_mul_bound(wi as int, oi as int, ONE as int, b2);
            lemma_abs_mul_bound(wr as int, oi as int, ONE as int, b2);
            lemma_abs_mul_bound(wi as int, or_ as int, ONE as int, b2);
            assert(ONE as int * b2 <= 0x7fff_ffff_ffff_ffff * (ONE as int)) by (nonlinear_arith)
                requires
                    0 <= b2 <= FFT_CAP,
            ;
            lemma_fmul_one_bound(or_ as int, wr as int, b2);
            lemma_fmul_one_bound(oi as int, wi as int, b2);
            lemma_fmul_one_bound(oi as int, wr as int, b2);
            lemma_fmul_one_bound(or_ as int, wi as int, b2);
            assert(wr as int * or_ as int == or_ as int * wr as int) by (nonlinear_arith);
            assert(wi as int * oi as int == oi as int * wi as int) by (nonlinear_arith);
            assert(wr as int * oi as int == oi as int * wr as int) by (nonlinear_arith);
            assert(wi as int * or_ as int == or_ as int * wi as int) by (nonlinear_arith);
        }
        let tr = fmul(wr, or_) - fmul(wi, oi);
        let ti = fmul(wr, oi) + fmul(wi, or_);
        lo.push((er + tr, ei + ti));
        hi.push((er - tr, ei - ti));
        j = j + 1;
    }
    let ghost lo0 = lo@;
    let ghost hi0 = hi@;
    lo.append(&mut hi);
    proof {
        assert forall|m: int| 0 <= m < lo@.len() implies -b3 <= #[trigger] lo@[m].0 <= b3 && -b3 <= lo@[m].1 <= b3 by {
            assert(lo@ == lo0 + hi0);
            if m < lo0.len() {
                assert(lo@[m] == lo0[m]);
            } else {
                assert(lo@[m] == hi0[m - lo0.len()]);
            }
        }
        assert(lo@ =~= ifft_s(x@)) by {
            assert(ev@ == ifft_s(Seq::new(half as nat, |m: int| x@[2 * m])));
            assert(od@ == ifft_s(Seq::new(half as nat, |m: int| x@[2 * m + 1])));
            assert(step as int == (ONE as int) / (x@.len() as int));
            assert forall|m: int| 0 <= m < lo@.len() implies lo@[m] == ifft_s(x@)[m] by {
                assert(lo@ == lo0 + hi0);
                if m < half as int {
                    assert(lo@[m] == lo0[m]);
                } else {
                    assert(lo@[m] == hi0[m - half]);
                }
            }
        }
    }
    lo
}

/// The magnitude of a value.
pub open spec fn abs_i(x: int) -> int {
    if x < 0 {
        -x
    } else {
        x
    }
}

/// The largest magnitude among the first `n` samples.
pub open spec fn max_abs_s(s: Seq<i64>, n: int) -> int
    decreases n,
{
    if n <= 0 {
        0
    } else {
        let m = max_abs_s(s, n - 1);
        let a = abs_i(s[n - 1] as int);
        if a > m {
            a
        } else {
            m
        }
    }
}

/// The value `normalize` computes: every sample divided by the loudest
/// magnitude; an all-zero signal stays as it is.
pub open spec fn normalize_s(s: Seq<i64>) -> Seq<i64> {
    let m = max_abs_s(s, s.len() as int);
    if m == 0 {
        s
    } else {
        Seq::new(s.len(), |i: int| fdiv_s(s[i] as int, m) as i64)
    }
}

/// Scales a signal so that its loudest sample sits at exactly `ONE`; an
/// all-zero signal stays all zero.
fn normalize(signal: Vec<i64>, Ghost(cap): Ghost<int>) -> (r: Vec<i64>)
    requires
        0 <= cap <= FFT_CAP,
        forall|i: int| 0 <= i < signal@.len() ==> -cap <= #[trigger] signal@[i] <= cap,
    ensures
        r@ == normalize_s(signal@),
        r@.len() == signal@.len(),
        forall|i: int| 0 <= i < r@.len() ==> -ONE <= #[trigger] r@[i] <= ONE,
        max_abs_s(signal@, signal@.len() as int) > 0 ==> exists|i: int|
            0 <= i < r@.len() && (#[trigger] r@[i] == ONE || r@[i] == -ONE),
        max_abs_s(signal@, signal@.len() as int) == 0 ==> forall|i: int|
            0 <= i < r@.len() ==> #[trigger] r@[i] == 0,
{
    let mut max: i64 = 0;
    let ghost mut max_at: int = 0int;
    let mut i: usize = 0;
    while i < signal.len()
        invariant
            0 <= i <= signal@.len(),
            0 <= cap <= FFT_CAP,
            0 <= max <= cap,
            max == max_abs_s(signal@, i as int),
            forall|m: int| 0 <= m < signal@.len() ==> -cap <= #[trigger] signal@[m] <= cap,
            forall|m: int| 0 <= m < i ==> -max <= #[trigger] signal@[m] <= max,
            max > 0 ==> 0 <= max_at < i && (signal@[max_at] == max || signal@[max_at] == -max),
        decreases signal@.len() - i,
    {
        let v = signal[i];
        if v > max {
            max = v;
            proof {
                max_at = i as int;
            }
        } else if v < 0 && -v > max {
            max = -v;
            proof {
                max_at = i as int;
            }
        }
        i = i + 1;
    }
    if max == 0 {
        // every sample is zero already
        proof {
            assert forall|m: int| 0 <= m < signal@.len() implies #[trigger] signal@[m] == 0 by {
            }
        }
        return signal;
    }
    let mut out: Vec<i64> = Vec::new();
    let mut i: usize = 0;
    while i < signal.len()
        invariant
            0 <= i <= signal@.len(),
            0 < max,
            out@.len() == i,
            forall|m: int| 0 <= m < signal@.len() ==> -max <= #[trigger] signal@[m] <= max,
            0 <= max_at < signal@.len() && (signal@[max_at] == max || signal@[max_at] == -max),
            forall|m: int| 0 <= m < i ==> -ONE <= #[trigger] out@[m] <= ONE,
            forall|m: int| 0 <= m < i ==> #[trigger] out@[m] == fdiv_s(signal@[m] as int, max as int),
        decreases signal@.len() - i,
    {
        let v = signal[i];
        proof {
            lemma_abs_mul_bound(v as int, ONE as int, max as int, ONE as int);
            assert(max as int * (ONE as int) <= 0x7fff_ffff_ffff_ffff * (max as int)) by (nonlinear_arith)
                requires
                    0 < max as int,
            ;
            lemma_tdiv_bound(v as int * ONE, max as int * (ONE as int), max as int);
            lemma_tdiv_exact(ONE as int, max as int);
            assert(max as int * (ONE as int) == ONE as int * (max as int)) by (nonlinear_arith);
        }
        let t = fdiv(v, max);
        out.push(t);
        i = i + 1;
    }
    proof {
        let m = max_at;
        assert(out@[m] == fdiv_s(signal@[m] as int, max as int));
        lemma_tdiv_exact(ONE as int, max as int);
        assert(max as int * (ONE as int) == ONE as int * (max as int)) by (nonlinear_arith);
        assert(-(max as int) * (ONE as int) == -(ONE as int) * (max as int)) by (nonlinear_arith);
        lemma_tdiv_exact(-(ONE as int), max as int);
        assert(out@ =~= normalize_s(signal@));
    }
    out
}

/// The real parts of a complex signal.
pub open spec fn reals_s(s: Seq<(i64, i64)>) -> Seq<i64> {
    Seq::new(s.len(), |i: int| s[i].0)
}

/// The harmonic count the builder uses for its table at `idx`: the
/// Nyquist limit `fs / (2·f0)` (one for the pure sine), halved from table
/// to table.
pub open spec fn sched_harmonics(waveform: Waveform, fundamental_freq: int, sample_rate: int, idx: nat) -> int
    decreases idx,
{
    if idx == 0 {
        match waveform {
            Waveform::Sine => 1,
            _ => (sample_rate * (ONE as int)) / (2 * fundamental_freq),
        }
    } else {
        sched_harmonics(waveform, fundamental_freq, sample_rate, (idx - 1) as nat) / 2
    }
}

/// A table that came out of the stated pipeline: some spectrum obeying
/// the waveform's harmonic law at the given harmonic count (its chance
/// imaginary parts are all a `Random` build may vary), pushed through the
/// inverse FFT and the tight normalizer.
pub open spec fn built_table_rel(waveform: Waveform, harmonics: int, t: Wavetable) -> bool {
    &&& 4 <= t.table@.len() <= 16384
    &&& 2 * harmonics <= t.table@.len()
    &&& exists|sp: Seq<(i64, i64)>|
        (#[trigger] spectrum_rel(waveform, harmonics, t.table@.len() as int, sp))
            && t.table@ == normalize_s(reals_s(ifft_s(sp)))
}

/// A whole built set: sound and tight, the first cap at `2·f0 / fs`, each
/// cap exactly double the one before, and every table the pipeline's
/// output at its scheduled harmonic count.
pub open spec fn built_set_rel(waveform: Waveform, fundamental_freq: int, sample_rate: int, s: Seq<Wavetable>) -> bool {
    &&& set_wf(s)
    &&& s[0].max_phase_incr == (2 * fundamental_freq) / sample_rate
    &&& forall|idx: int| 0 <= idx < s.len() ==> built_table_rel(
        waveform,
        sched_harmonics(waveform, fundamental_freq, sample_rate, idx as nat),
        #[trigger] s[idx],
    )
    &&& forall|idx: int| 0 <= idx < s.len() - 1 ==> (#[trigger] s[idx + 1]).max_phase_incr == 2 * s[idx].max_phase_incr
}

/// A mip-mapped set for one waveform: at least one table, all built sound,
/// tightly normalized, with strictly growing phase-increment caps.
pub open spec fn set_wf(s: Seq<Wavetable>) -> bool {
    &&& s.len() >= 1
    &&& forall|i: int| 0 <= i < s.len() ==> (#[trigger] s[i]).wf()
    &&& forall|i: int| 0 <= i < s.len() ==> (#[trigger] s[i]).tight()
    &&& forall|i: int, j: int| 0 <= i < j < s.len() ==> (#[trigger] s[i]).max_phase_incr < (#[trigger] s[j]).max_phase_incr
}

/// Builds the band-limited tables for one waveform: harmonics start at the
/// Nyquist limit `fs / (2·f0)` and halve from table to table while the
/// phase-increment cap doubles from `2·f0 / fs` upward.
pub fn build_wavetables(waveform: Waveform, fundamental_freq: i64, sample_rate: usize) -> (r: Vec<Wavetable>)
    requires
        ONE <= fundamental_freq <= 20000 * (ONE as int),
        8000 <= sample_rate <= 96000,
        2 * fundamental_freq <= (sample_rate as int) * ONE,
        (sample_rate as int) * ONE <= 8192 * fundamental_freq,
    ensures
        set_wf(r@),
        r@[0].max_phase_incr == (2 * fundamental_freq) / (sample_rate as int),
        built_set_rel(waveform, fundamental_freq as int, sample_rate as int, r@),
{
    proof {
        assert(2 * fundamental_freq >= sample_rate as int) by (nonlinear_arith)
            requires
                fundamental_freq >= ONE,
                sample_rate <= 96000,
        ;
        vstd::arithmetic::div_mod::lemma_div_non_zero(2 * fundamental_freq, sample_rate as int);
        // the initial phase increment is at most 5·ONE
        vstd::arithmetic::div_mod::lemma_div_is_ordered_by_denominator(2 * fundamental_freq, 8000, sample_rate as int);
        lemma_div_is_ordered(2 * fundamental_freq, 40000 * (ONE as int), 8000);
        lemma_div_by_multiple(5 * (ONE as int), 8000);
        assert(5 * (ONE as int) * 8000 == 40000 * (ONE as int)) by (nonlinear_arith);
    }
    let mut phase_incr: i64 = div_pos(2 * fundamental_freq, sample_rate as i64);
    let ghost dphi0 = phase_incr as int;
    let mut harmonics: usize;
    let mut table_size: usize;
    let mut table_exp: u64;
    match waveform {
        Waveform::Sine => {
            harmonics = 1;
            table_size = 4096;
            table_exp = 12;
            proof {
                lemma2_to64();
            }
        },
        _ => {
            proof {
                lemma_abs_mul_bound(sample_rate as int, ONE as int, 96000, ONE as int);
                vstd::arithmetic::div_mod::lemma_div_non_zero((sample_rate as int) * ONE, 2 * fundamental_freq);
                lemma_div_is_ordered((sample_rate as int) * ONE, 8192 * fundamental_freq, 2 * fundamental_freq);
                lemma_div_by_multiple(4096, 2 * fundamental_freq);
                assert(4096 * (2 * fundamental_freq) == 8192 * fundamental_freq) by (nonlinear_arith);
            }
            let num: i64 = (sample_rate as i64) * ONE;
            let h = div_pos(num, 2 * fundamental_freq);
            harmonics = h as usize;
            let (p, e) = next_pow2(harmonics);
            proof {
                if e >= 13 {
                    lemma_pow2_strictly_increases(12, e as nat);
                    lemma2_to64();
                    assert(false);
                }
                lemma_pow2_adds(e as nat, 2);
                lemma2_to64();
            }
            table_size = p * 4;
            table_exp = e + 2;
        },
    }
    let mut tables: Vec<Wavetable> = Vec::new();
    proof {
        assert((phase_incr as int) * (harmonics as int) <= 20480 * (ONE as int)) by (nonlinear_arith)
            requires
                0 < (phase_incr as int) <= 5 * (ONE as int),
                1 <= (harmonics as int) <= 4096,
        ;
    }
    // use a pure sine once only one harmonic is left, otherwise the last
    // table of the odd-harmonic waveforms would be empty
    while harmonics > 0
        invariant
            harmonics == 0 ==> tables@.len() >= 1,
            0 < dphi0 <= 5 * (ONE as int),
            0 < phase_incr,
            harmonics <= 4096,
            (phase_incr as int) * (harmonics as int) <= 20480 * (ONE as int),
            harmonics > 0 ==> 4 <= table_size <= 16384
                && table_size == pow2(table_exp as nat)
                && table_exp <= 14
                && 2 * harmonics <= table_size,
            forall|i: int| 0 <= i < tables@.len() ==> (#[trigger] tables@[i]).wf(),
            forall|i: int| 0 <= i < tables@.len() ==> (#[trigger] tables@[i]).tight(),
            forall|i: int, j: int| 0 <= i < j < tables@.len() ==> (#[trigger] tables@[i]).max_phase_incr < (#[trigger] tables@[j]).max_phase_incr,
            forall|i: int| 0 <= i < tables@.len() ==> (#[trigger] tables@[i]).max_phase_incr < phase_incr,
            tables@.len() > 0 ==> tables@[0].max_phase_incr == dphi0,
            tables@.len() == 0 ==> phase_incr == dphi0,
            harmonics as int == sched_harmonics(waveform, fundamental_freq as int, sample_rate as int, tables@.len() as nat),
            forall|idx: int| 0 <= idx < tables@.len() ==> built_table_rel(
                waveform,
                sched_harmonics(waveform, fundamental_freq as int, sample_rate as int, idx as nat),
                #[trigger] tables@[idx],
            ),
            forall|idx: int| 0 <= idx < tables@.len() - 1 ==> (#[trigger] tables@[idx + 1]).max_phase_incr == 2 * tables@[idx].max_phase_incr,
            tables@.len() > 0 ==> phase_incr as int == 2 * tables@[tables@.len() - 1].max_phase_incr,
        decreases harmonics,
    {
        proof {
            assert(phase_incr as int <= (phase_incr as int) * (harmonics as int)) by (nonlinear_arith)
                requires
                    0 < phase_incr as int,
                    1 <= harmonics as int,
            ;
        }
        let spectrum = generate_spectrum(waveform, harmonics, table_size);
        proof {
            assert(pow(3, 14nat) == 4782969) by {
                reveal_with_fuel(pow, 15);
            }
            vstd::arithmetic::power::lemma_pow_increases(3, table_exp as nat, 14);
            vstd::arithmetic::power::lemma_pow_positive(3, table_exp as nat);
            assert((ONE as int) * pow(3, table_exp as nat) <= FFT_CAP) by (nonlinear_arith)
                requires
                    0 < pow(3, table_exp as nat) <= 4782969,
            ;
        }
        let signal = ifft(&spectrum, Ghost(table_exp as nat), Ghost(ONE as int));
        let ghost fft_bound = (ONE as int) * pow(3, table_exp as nat);
        let mut re: Vec<i64> = Vec::new();
        let mut i: usize = 0;
        while i < signal.len()
            invariant
                0 <= i <= signal@.len(),
                re@.len() == i,
                0 <= fft_bound,
                forall|m: int| 0 <= m < signal@.len() ==> -fft_bound <= #[trigger] signal@[m].0 <= fft_bound,
                forall|m: int| 0 <= m < i ==> -fft_bound <= #[trigger] re@[m] <= fft_bound,
                forall|m: int| 0 <= m < i ==> #[trigger] re@[m] == signal@[m].0,
            decreases signal@.len() - i,
        {
            re.push(signal[i].0);
            i = i + 1;
        }
        proof {
            assert(re@ =~= reals_s(signal@));
        }
        let table = normalize(re, Ghost(fft_bound));
        let ghost this_h = harmonics as int;
        tables.push(Wavetable { table, max_phase_incr: phase_incr });
        proof {
            let last = tables@.len() - 1;
            assert(tables@[last].table@ == normalize_s(reals_s(ifft_s(spectrum@))));
            assert(tables@[last].table@.len() == spectrum@.len());
            assert(spectrum_rel(waveform, this_h, tables@[last].table@.len() as int, spectrum@));
            assert(built_table_rel(waveform, this_h, tables@[last]));
        }
        proof {
            assert(2 * (phase_incr as int) * ((harmonics as int) / 2) <= (phase_incr as int) * (harmonics as int)) by (nonlinear_arith)
                requires
                    0 < phase_incr as int,
                    0 <= harmonics as int,
                    2 * ((harmonics as int) / 2) <= harmonics as int,
            ;
            lemma_fundamental_div_mod(harmonics as int, 2);
            lemma_remainder_upper(harmonics as int, 2);
            lemma_remainder_lower(harmonics as int, 2);
        }
        harmonics = harmonics / 2;
        phase_incr = phase_incr * 2;
        if harmonics > 0 {
            let (p, e) = next_pow2(harmonics);
            proof {
                if e >= 13 {
                    lemma_pow2_strictly_increases(12, e as nat);
                    lemma2_to64();
                    assert(false);
                }
                lemma_pow2_adds(e as nat, 2);
                lemma2_to64();
            }
            let next_table_size = p * 4;
            if next_table_size < 64 {
                table_size = 64;
                table_exp = 6;
                proof {
                    lemma2_to64();
                }
            } else {
                table_size = next_table_size;
                table_exp = e + 2;
            }
        }
    }
    tables
}

/// The band-limited table sets of all six waveforms.
pub struct BandLimitedTables {
    /// One table set per waveform, indexed by `Waveform::index`.
    pub sets: Vec<Vec<Wavetable>>,
}

impl BandLimitedTables {
    /// The invariant: six sound table sets.
    pub open spec fn wf(&self) -> bool {
        &&& self.sets@.len() == 6
        &&& forall|w: int| 0 <= w < 6 ==> set_wf((#[trigger] self.sets@[w])@)
    }

    /// The table set of a waveform.
    pub fn set_for(&self, waveform: Waveform) -> (r: &Vec<Wavetable>)
        requires
            self.wf(),
        ensures
            r == self.sets@[waveform.index_s()],
            set_wf(r@),
    {
        &self.sets[waveform.index()]
    }
}

/// The largest phase increment an oscillator can hold.
pub const DPHI_MAX: i64 = 0x10_0000_0000_0000;

/// The largest phase offset an oscillator accepts.
pub const PHASE_MAX: i64 = 0x4_0000_0000_0000;

/// Phase offsets that move by more than this within one tick count as a
/// discontinuity and trigger the one-sample crossfade.
pub const PHASE_DELTA: i64 = 42949672;

/// Truncating (toward zero) remainder, as Rust's `%` computes it for `d > 0`.
pub open spec fn tmod(x: int, d: int) -> int {
    if x >= 0 {
        x % d
    } else {
        -((-x) % d)
    }
}

/// The table a set serves a phase increment with, scanning from `start`:
/// the first whose cap exceeds the increment, or the last.
pub open spec fn select_idx(s: Seq<Wavetable>, dphi: int, start: int) -> int
    decreases s.len() - start,
{
    if start >= s.len() - 1 {
        s.len() - 1
    } else if s[start].max_phase_incr > dphi {
        start
    } else {
        select_idx(s, dphi, start + 1)
    }
}

/// Scans a table set for the first table whose cap exceeds the increment.
fn select_from(tables: &Vec<Wavetable>, dphi: i64, start: usize) -> (r: usize)
    requires
        tables@.len() >= 1,
        start < tables@.len(),
    ensures
        r == select_idx(tables@, dphi as int, start as int),
        start <= r < tables@.len(),
    decreases tables@.len() - start,
{
    if start >= tables.len() - 1 {
        tables.len() - 1
    } else if tables[start].max_phase_incr > dphi {
        start
    } else {
        select_from(tables, dphi, start + 1)
    }
}

/// The phase increment of a frequency under a transposition: the frequency
/// scaled by `2^transpose`, divided by the sample rate.
pub open spec fn dphi_of(freq: int, transpose: int, sample_rate: int) -> int {
    (freq * pow2((transpose + 8) as nat)) / (sample_rate * 256)
}

/// The sample one tick of an oscillator emits: the selected table read at
/// the offset phase, crossfaded with the last sample over a marked jump.
pub open spec fn osc_raw_s(o: WavetableOsc) -> int {
    let ph = tmod(o.phasor + o.phase, ONE as int);
    let sel = select_idx(o.cur_set(), o.phase_incr as int, 0);
    let raw = Wavetable::sample_s(o.cur_set()[sel].table@, ph);
    if o.phase_changed {
        tdiv(o.last_sample + raw, 2)
    } else {
        raw
    }
}

/// The oscillator after one tick: the accumulator advances by the
/// increment, the crossfade mark clears, the emitted sample is remembered.
pub open spec fn osc_ticked_s(o: WavetableOsc) -> WavetableOsc {
    WavetableOsc {
        phasor: ((o.phasor + o.phase_incr) % (ONE as int)) as i64,
        phase_changed: false,
        last_sample: osc_raw_s(o) as i64,
        ..o
    }
}

/// The oscillator after a phase-offset write: a move of more than
/// `PHASE_DELTA` marks the next frame for the crossfade.
pub open spec fn osc_with_phase_s(o: WavetableOsc, p: int) -> WavetableOsc {
    WavetableOsc {
        phase: p as i64,
        phase_changed: o.phase_changed || o.phase - p > PHASE_DELTA || o.phase - p < -PHASE_DELTA,
        ..o
    }
}

/// A band-limited wavetable oscillator: a phase accumulator sampling the
/// table set of its waveform, with a per-tick phase-offset input for FM.
pub struct WavetableOsc {
    /// Phase increment per tick, Q32 turns.
    pub phase_incr: i64,
    pub sample_rate: usize,
    /// The key last played.
    pub key: u8,
    /// The detuning offset in Q32 Hz.
    pub detune_hz: i64,
    /// The phase offset applied before lookup, Q32 turns.
    pub phase: i64,
    /// Whether the next tick crossfades over a phase discontinuity.
    pub phase_changed: bool,
    /// The phase accumulator, in `[0, ONE)`.
    pub phasor: i64,
    /// Transposition in octaves.
    pub transpose: i32,
    /// The frame emitted by the last tick.
    pub last_sample: i64,
    pub waveform: Waveform,
    pub id: String,
    pub pitch_convert: Shared<PitchConvert>,
    pub tables: Shared<BandLimitedTables>,
}

impl WavetableOsc {
    /// The invariant every reachable oscillator satisfies.
    pub open spec fn wf(&self) -> bool {
        &&& 0 <= self.phase_incr <= DPHI_MAX
        &&& 8000 <= self.sample_rate <= 96000
        &&& -(128 * (MAX_FREQ as int)) <= self.detune_hz <= 128 * (MAX_FREQ as int)
        &&& -PHASE_MAX <= self.phase <= PHASE_MAX
        &&& 0 <= self.phasor < ONE
        &&& -8 <= self.transpose <= 8
        &&& -ONE <= self.last_sample <= ONE
        &&& (*self.pitch_convert).wf()
        &&& (*self.tables).wf()
    }

    /// The table set the oscillator currently reads.
    pub open spec fn cur_set(&self) -> Seq<Wavetable> {
        ((*self.tables).sets@[self.waveform.index_s()])@
    }

    /// An oscillator at rest on the sine waveform.
    pub fn new(sample_rate: usize, wavetables: Shared<BandLimitedTables>, pitch_convert: Shared<PitchConvert>) -> (r: WavetableOsc)
        requires
            8000 <= sample_rate <= 96000,
            (*wavetables).wf(),
            (*pitch_convert).wf(),
        ensures
            r.wf(),
            r == (WavetableOsc {
                phase_incr: 0i64,
                sample_rate,
                key: 0u8,
                detune_hz: 0i64,
                phase: 0i64,
                phase_changed: false,
                phasor: 0i64,
                transpose: 0i32,
                last_sample: 0i64,
                waveform: Waveform::Sine,
                id: r.id,
                pitch_convert,
                tables: wavetables,
            }),
            r.id@ == Seq::<char>::empty(),
    {
        WavetableOsc {
            phase_incr: 0,
            sample_rate,
            key: 0,
            detune_hz: 0,
            phase: 0,
            phase_changed: false,
            phasor: 0,
            transpose: 0,
            last_sample: 0,
            waveform: Waveform::Sine,
            id: String::new(),
            pitch_convert,
            tables: wavetables,
        }
    }

    /// An oscillator addressed by an id.
    pub fn with_id(id: String, sample_rate: usize, wavetables: Shared<BandLimitedTables>, pitch_convert: Shared<PitchConvert>) -> (r: WavetableOsc)
        requires
            8000 <= sample_rate <= 96000,
            (*wavetables).wf(),
            (*pitch_convert).wf(),
        ensures
            r.wf(),
            r.id@ == id@,
            r.phase_incr == 0 && r.phasor == 0 && r.phase == 0 && r.last_sample == 0,
            r.waveform == Waveform::Sine,
            r.sample_rate == sample_rate,
            r.tables == wavetables,
            r.pitch_convert == pitch_convert,
    {
        let mut osc = WavetableOsc::new(sample_rate, wavetables, pitch_convert);
        osc.set_id(id);
        osc
    }

    /// Names the oscillator.
    pub fn set_id(&mut self, id: String)
        ensures
            *final(self) == (WavetableOsc { id, ..*old(self) }),
    {
        self.id = id;
    }

    /// Sets the frequency in Q32 Hz: the phase increment becomes
    /// `freq · 2^transpose / sample_rate`.
    pub fn set_freq(&mut self, freq: i64)
        requires
            old(self).wf(),
            0 <= freq <= MAX_FREQ,
        ensures
            final(self).wf(),
            *final(self) == (WavetableOsc {
                phase_incr: final(self).phase_incr,
                ..*old(self)
            }),
            final(self).phase_incr == dphi_of(freq as int, old(self).transpose as int, old(self).sample_rate as int),
    {
        let sh = crate::db::pow2_u64((self.transpose + 8) as u64);
        proof {
            lemma2_to64();
            if ((self.transpose + 8) as nat) < 16 {
                lemma_pow2_strictly_increases((self.transpose + 8) as nat, 16);
            }
            assert(0 <= (freq as int) * (sh as int) <= (MAX_FREQ as int) * 65536) by (nonlinear_arith)
                requires
                    0 <= freq as int <= MAX_FREQ as int,
                    0 <= (sh as int) <= 65536,
            ;
            lemma_div_is_ordered((freq as int) * (sh as int), (MAX_FREQ as int) * 65536, (self.sample_rate as int) * 256);
            vstd::arithmetic::div_mod::lemma_div_is_ordered_by_denominator((MAX_FREQ as int) * 65536, 2048000, (self.sample_rate as int) * 256);
            lemma_div_is_ordered((MAX_FREQ as int) * 65536, (DPHI_MAX as int) * 2048000, 2048000);
            lemma_div_by_multiple(DPHI_MAX as int, 2048000);
            assert((MAX_FREQ as int) * 65536 <= (DPHI_MAX as int) * 2048000) by (nonlinear_arith);
            lemma_div_pos_is_pos((freq as int) * (sh as int), (self.sample_rate as int) * 256);
        }
        let num: i128 = (freq as i128) * (sh as i128);
        let den: i128 = (self.sample_rate as i128) * 256;
        let q: i128 = num.checked_div(den).unwrap();
        self.phase_incr = q as i64;
    }

    /// Switches the waveform.
    pub fn set_waveform(&mut self, waveform: Waveform)
        ensures
            *final(self) == (WavetableOsc { waveform, ..*old(self) }),
    {
        self.waveform = waveform;
    }

    /// Sets the phase offset applied before the next lookup; a move of more
    /// than `PHASE_DELTA` marks the next frame for the anti-click crossfade.
    pub fn set_phase(&mut self, phase: i64)
        requires
            old(self).wf(),
            -PHASE_MAX <= phase <= PHASE_MAX,
        ensures
            final(self).wf(),
            *final(self) == osc_with_phase_s(*old(self), phase as int),
    {
        let diff = self.phase - phase;
        if diff > PHASE_DELTA || diff < -PHASE_DELTA {
            self.phase_changed = true;
        }
        self.phase = phase;
    }

    /// Resets the accumulator, the offset and the crossfade memory.
    pub fn reset(&mut self)
        ensures
            *final(self) == (WavetableOsc {
                phase: 0i64,
                phasor: 0i64,
                last_sample: 0i64,
                ..*old(self)
            }),
    {
        self.phase = 0;
        self.phasor = 0;
        self.last_sample = 0;
    }

    /// The next sample: the phase (accumulator plus offset, wrapped) is
    /// looked up in the smallest table whose cap exceeds the current
    /// increment; a marked phase jump crossfades with the previous sample;
    /// the accumulator then advances by the increment.
    pub fn tick(&mut self) -> (r: i64)
        requires
            old(self).wf(),
            set_wf(old(self).cur_set()),
        ensures
            final(self).wf(),
            -ONE <= r <= ONE,
            r == osc_raw_s(*old(self)),
            *final(self) == osc_ticked_s(*old(self)),
    {
        let sum = self.phasor + self.phase;
        proof {
            if sum >= 0 {
                lemma_remainder_upper(sum as int, ONE as int);
                lemma_remainder_lower(sum as int, ONE as int);
            } else {
                lemma_remainder_upper(-(sum as int), ONE as int);
                lemma_remainder_lower(-(sum as int), ONE as int);
            }
        }
        let phasor = sum.checked_rem(ONE).unwrap();
        let mut sample = self.sample(phasor);
        if self.phase_changed {
            proof {
                lemma_tdiv_bound(self.last_sample as int + sample as int, 2 * (ONE as int), 2);
                assert(2 * (ONE as int) / 2 == ONE as int) by (nonlinear_arith);
            }
            sample = (self.last_sample + sample).checked_div(2).unwrap();
            self.phase_changed = false;
        }
        proof {
            lemma_remainder_upper(self.phasor as int + self.phase_incr as int, ONE as int);
            lemma_remainder_lower(self.phasor as int + self.phase_incr as int, ONE as int);
        }
        self.phasor = ((self.phasor + self.phase_incr) as u64 % (ONE as u64)) as i64;
        self.last_sample = sample;
        sample
    }

    /// The sample of the table the current increment selects, at a phase in
    /// `(-ONE, ONE)`.
    fn sample(&self, phasor: i64) -> (r: i64)
        requires
            self.wf(),
            set_wf(self.cur_set()),
            -ONE < phasor < ONE,
        ensures
            r == Wavetable::sample_s(self.cur_set()[select_idx(self.cur_set(), self.phase_incr as int, 0)].table@, phasor as int),
            -ONE <= r <= ONE,
    {
        let wavetables = self.tables.set_for(self.waveform);
        let idx = select_from(wavetables, self.phase_incr, 0);
        let wavetable = &wavetables[idx];
        wavetable.sample(phasor)
    }
}

/// The frequency of a key in a pitch table; out-of-range keys read the
/// last entry.
pub open spec fn key_hz(p: PitchConvert, key: int) -> int {
    if key < 128 {
        p.table@[key] as int
    } else {
        p.table@[127] as int
    }
}

/// What a control event does to an oscillator: note-on retunes it to the
/// key (plus detuning); addressed messages set the waveform, the phase
/// offset, the transposition or the detuning of the oscillator whose id
/// matches.
pub open spec fn osc_handled_s(o: WavetableOsc, msg: ControlEvent) -> WavetableOsc {
    match msg {
        ControlEvent::NoteOn { key, .. } => {
            let freq = crate::fixed::clamp_s(key_hz(*o.pitch_convert, key as int) + o.detune_hz, 0, MAX_FREQ as int);
            WavetableOsc {
                key,
                phase_incr: dphi_of(freq, o.transpose as int, o.sample_rate as int) as i64,
                ..o
            }
        },
        ControlEvent::Waveform { id, waveform } => WavetableOsc {
            waveform: if id@ == o.id@ { waveform } else { o.waveform },
            ..o
        },
        ControlEvent::Phase { id, phase } => {
            if id@ == o.id@ {
                osc_with_phase_s(o, crate::fixed::clamp_s(phase as int, -PHASE_MAX as int, PHASE_MAX as int))
            } else {
                o
            }
        },
        ControlEvent::Transpose { id, transpose } => WavetableOsc {
            transpose: if id@ == o.id@ { crate::fixed::clamp_s(transpose as int, -8, 8) as i32 } else { o.transpose },
            ..o
        },
        ControlEvent::Detune { id, detune } => {
            if id@ == o.id@ {
                let current = key_hz(*o.pitch_convert, o.key as int);
                let low = key_hz(*o.pitch_convert, if o.key == 0 { 0 } else { o.key - 1 });
                let high = key_hz(*o.pitch_convert, if o.key == 255 { 255 } else { o.key + 1 });
                let dt = crate::fixed::clamp_s(detune as int, -12800, 12800);
                let cent = tdiv(if dt < 0 { low - current } else { high - current }, 100);
                let dhz = dt * cent;
                let freq = crate::fixed::clamp_s(current + dhz, 0, MAX_FREQ as int);
                WavetableOsc {
                    detune_hz: dhz as i64,
                    phase_incr: dphi_of(freq, o.transpose as int, o.sample_rate as int) as i64,
                    ..o
                }
            } else {
                o
            }
        },
        _ => o,
    }
}

impl Controllable for WavetableOsc {
    open spec fn inv(&self) -> bool {
        self.wf()
    }

    /// Applies a control event exactly as `osc_handled_s` describes.
    fn handle(&mut self, msg: &ControlEvent)
        ensures
            *final(self) == osc_handled_s(*old(self), *msg),
    {
        match msg {
            ControlEvent::NoteOn { key, .. } => {
                self.key = *key;
                let base = self.pitch_convert.key_to_hz(*key);
                let freq = clamp(base + self.detune_hz, 0, MAX_FREQ);
                self.set_freq(freq);
            },
            ControlEvent::Waveform { id, waveform } => {
                if id.eq(&self.id) {
                    self.set_waveform(*waveform);
                }
            },
            ControlEvent::Phase { id, phase } => {
                if id.eq(&self.id) {
                    let p = clamp(*phase, -PHASE_MAX, PHASE_MAX);
                    self.set_phase(p);
                }
            },
            ControlEvent::Transpose { id, transpose } => {
                if id.eq(&self.id) {
                    self.transpose = if *transpose < -8 {
                        -8
                    } else if *transpose > 8 {
                        8
                    } else {
                        *transpose
                    };
                }
            },
            ControlEvent::Detune { id, detune } => {
                if id.eq(&self.id) {
                    let k = self.key;
                    let low = self.pitch_convert.key_to_hz(if k == 0 { 0 } else { k - 1 });
                    let current = self.pitch_convert.key_to_hz(k);
                    let high = self.pitch_convert.key_to_hz(if k == 255 { 255 } else { k + 1 });
                    let dt: i64 = if *detune < -12800 {
                        -12800
                    } else if *detune > 12800 {
                        12800
                    } else {
                        *detune as i64
                    };
                    // linear approximation of cents
                    let cent = (if dt < 0 {
                        low - current
                    } else {
                        high - current
                    }).checked_div(100).unwrap();
                    proof {
                        lemma_tdiv_bound(if dt < 0 { low as int - current } else { high as int - current }, MAX_FREQ as int, 100);
                        lemma_abs_mul_bound(dt as int, cent as int, 12800, tdiv(MAX_FREQ as int, 100));
                        assert(12800 * ((MAX_FREQ as int) / 100) <= 128 * (MAX_FREQ as int)) by (nonlinear_arith)
                            requires
                                0 <= (MAX_FREQ as int) / 100 <= (MAX_FREQ as int) / 100,
                                100 * ((MAX_FREQ as int) / 100) <= MAX_FREQ as int,
                        ;
                        vstd::arithmetic::div_mod::lemma_fundamental_div_mod(MAX_FREQ as int, 100);
                        lemma_remainder_upper(MAX_FREQ as int, 100);
                        lemma_remainder_lower(MAX_FREQ as int, 100);
                    }
                    self.detune_hz = dt * cent;
                    let detuned_freq = clamp(current + self.detune_hz, 0, MAX_FREQ);
                    self.set_freq(detuned_freq);
                }
            },
            _ => (),
        }
    }
}

/// Builds the wavetable sets of every waveform for the given fundamental
/// frequency and sample rate. The first table of each set caps phase
/// increments at exactly `2·f0 / fs`.
/// The waveform a table-set slot belongs to, the inverse of
/// `Waveform::index_s`.
pub open spec fn waveform_at(w: int) -> Waveform {
    if w == 0 {
        Waveform::Sine
    } else if w == 1 {
        Waveform::Saw
    } else if w == 2 {
        Waveform::Square
    } else if w == 3 {
        Waveform::Tri
    } else if w == 4 {
        Waveform::SharpTri
    } else {
        Waveform::Random
    }
}

pub fn generate_wavetables(fundamental_freq: i64, sample_rate: usize) -> (r: BandLimitedTables)
    requires
        ONE <= fundamental_freq <= 20000 * (ONE as int),
        8000 <= sample_rate <= 96000,
        2 * fundamental_freq <= (sample_rate as int) * ONE,
        (sample_rate as int) * ONE <= 8192 * fundamental_freq,
    ensures
        r.wf(),
        forall|w: int| 0 <= w < 6 ==> (#[trigger] r.sets@[w])@[0].max_phase_incr == (2 * fundamental_freq) / (sample_rate as int),
        forall|w: int| 0 <= w < 6 ==> built_set_rel(
            waveform_at(w),
            fundamental_freq as int,
            sample_rate as int,
            (#[trigger] r.sets@[w])@,
        ),
{
    let mut sets: Vec<Vec<Wavetable>> = Vec::new();
    sets.push(build_wavetables(Waveform::Sine, fundamental_freq, sample_rate));
    sets.push(build_wavetables(Waveform::Saw, fundamental_freq, sample_rate));
    sets.push(build_wavetables(Waveform::Square, fundamental_freq, sample_rate));
    sets.push(build_wavetables(Waveform::Tri, fundamental_freq, sample_rate));
    sets.push(build_wavetables(Waveform::SharpTri, fundamental_freq, sample_rate));
    sets.push(build_wavetables(Waveform::Random, fundamental_freq, sample_rate));
    BandLimitedTables { sets }
}

} // verus!
