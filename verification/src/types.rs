//! The stereo frame and the shared read-only handle.

use vstd::prelude::*;
use std::rc::Rc;
use crate::fixed::{ONE, fmul, fdiv, fmul_s, fdiv_s};

verus! {

/// Builds a handle around a value.
pub trait Wrap<T>: Sized {
    fn wrap(t: T) -> Self;
}

/// A shared read-only handle; wavetable sets and the pitch table are built
/// once and shared by every oscillator.
pub type Shared<T> = Rc<T>;

impl<T> Wrap<T> for Rc<T> {
    fn wrap(t: T) -> (r: Self)
        ensures
            r == t,
    {
        Rc::new(t)
    }
}

/// One stereo frame: a left and a right Q32 sample.
#[derive(Clone, Copy, Debug, PartialEq, Eq, Structural)]
pub struct Stereo(pub i64, pub i64);

impl Stereo {
    /// Component-wise sum.
    pub fn add(self, rhs: Stereo) -> (r: Stereo)
        requires
            i64::MIN <= self.0 + rhs.0 <= i64::MAX,
            i64::MIN <= self.1 + rhs.1 <= i64::MAX,
        ensures
            r.0 == self.0 + rhs.0,
            r.1 == self.1 + rhs.1,
    {
        Stereo(self.0 + rhs.0, self.1 + rhs.1)
    }

    /// Component-wise difference.
    pub fn sub(self, rhs: Stereo) -> (r: Stereo)
        requires
            i64::MIN <= self.0 - rhs.0 <= i64::MAX,
            i64::MIN <= self.1 - rhs.1 <= i64::MAX,
        ensures
            r.0 == self.0 - rhs.0,
            r.1 == self.1 - rhs.1,
    {
        Stereo(self.0 - rhs.0, self.1 - rhs.1)
    }

    /// Component-wise fixed-point product.
    pub fn mul(self, rhs: Stereo) -> (r: Stereo)
        requires
            -0x7fff_ffff_ffff_ffff * (ONE as int) <= self.0 * rhs.0 <= 0x7fff_ffff_ffff_ffff * (ONE as int),
            -0x7fff_ffff_ffff_ffff * (ONE as int) <= self.1 * rhs.1 <= 0x7fff_ffff_ffff_ffff * (ONE as int),
        ensures
            r.0 == fmul_s(self.0 as int, rhs.0 as int),
            r.1 == fmul_s(self.1 as int, rhs.1 as int),
    {
        Stereo(fmul(self.0, rhs.0), fmul(self.1, rhs.1))
    }

    /// Fixed-point product with a scalar on both channels.
    pub fn scale(self, rhs: i64) -> (r: Stereo)
        requires
            -0x7fff_ffff_ffff_ffff * (ONE as int) <= self.0 * rhs <= 0x7fff_ffff_ffff_ffff * (ONE as int),
            -0x7fff_ffff_ffff_ffff * (ONE as int) <= self.1 * rhs <= 0x7fff_ffff_ffff_ffff * (ONE as int),
        ensures
            r.0 == fmul_s(self.0 as int, rhs as int),
            r.1 == fmul_s(self.1 as int, rhs as int),
    {
        Stereo(fmul(self.0, rhs), fmul(self.1, rhs))
    }

    /// Fixed-point division by a positive scalar on both channels.
    pub fn div(self, rhs: i64) -> (r: Stereo)
        requires
            0 < rhs,
            -0x7fff_ffff_ffff_ffff * (rhs as int) <= self.0 * (ONE as int) <= 0x7fff_ffff_ffff_ffff * (rhs as int),
            -0x7fff_ffff_ffff_ffff * (rhs as int) <= self.1 * (ONE as int) <= 0x7fff_ffff_ffff_ffff * (rhs as int),
        ensures
            r.0 == fdiv_s(self.0 as int, rhs as int),
            r.1 == fdiv_s(self.1 as int, rhs as int),
    {
        Stereo(fdiv(self.0, rhs), fdiv(self.1, rhs))
    }
}

impl Default for Stereo {
    /// The silent frame.
    fn default() -> (r: Stereo)
        ensures
            r.0 == 0,
            r.1 == 0,
    {
        Stereo(0, 0)
    }
}

/// Both channels at -3 dB: the center value of the pan law.
pub const MINUS_THREE_DB: i64 = 3040603991;

} // verus!
