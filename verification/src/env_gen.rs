//! The ADSR envelope: a one-pole smoother driven toward a stage target,
//! with a per-stage sample budget.
//!
//! The model `ADSRModel` gives every field as a mathematical integer; `tick`,
//! `state_change` and `handle` are pinned exactly to their spec mirrors, so
//! the whole trajectory of an envelope is a function of its model.

use vstd::prelude::*;
use crate::event::{ControlEvent, Controllable};
use crate::fixed::{ONE, fmul, fmul_s, div_pos, clamp, clamp_s, lemma_fmul_nonneg, lemma_fmul_bound, lemma_abs_mul_bound, lemma_tdiv_exact};
use crate::db::{from_db, from_db_s};
use crate::types::MINUS_THREE_DB;
use vstd::arithmetic::div_mod::{lemma_div_pos_is_pos, lemma_div_is_ordered};

verus! {

/// The longest stage time the envelope accepts: one hour, in Q32 seconds.
pub const MAX_TIME: i64 = 15461882265600;

/// The envelope stages.
#[derive(Clone, Copy, Debug, PartialEq, Eq, Structural)]
pub enum ADSRState {
    Attack,
    Decay,
    Sustain,
    Release,
    Off,
}

impl ADSRState {
    /// The stage that follows when the current budget runs out.
    pub open spec fn progress_s(self) -> ADSRState {
        match self {
            ADSRState::Attack => ADSRState::Decay,
            ADSRState::Decay => ADSRState::Sustain,
            ADSRState::Sustain => ADSRState::Release,
            ADSRState::Release => ADSRState::Off,
            ADSRState::Off => ADSRState::Off,
        }
    }

    /// How far the stage is from `Off`; each exhausted budget strictly
    /// lowers it.
    pub open spec fn rank(self) -> nat {
        match self {
            ADSRState::Attack => 4,
            ADSRState::Decay => 3,
            ADSRState::Sustain => 2,
            ADSRState::Release => 1,
            ADSRState::Off => 0,
        }
    }

    /// Steps to the next stage.
    pub fn progress(self) -> (r: ADSRState)
        ensures
            r == self.progress_s(),
    {
        match self {
            ADSRState::Attack => ADSRState::Decay,
            ADSRState::Decay => ADSRState::Sustain,
            ADSRState::Sustain => ADSRState::Release,
            ADSRState::Release | ADSRState::Off => ADSRState::Off,
        }
    }
}

/// The mathematical state of an envelope.
pub ghost struct ADSRModel {
    pub sample_rate: int,
    /// Attack time (Q32 seconds) and attack peak level.
    pub attack: (int, int),
    pub decay: int,
    pub sustain: int,
    pub release: int,
    pub state: ADSRState,
    pub ticks_left: int,
    pub gain: int,
    pub velocity: int,
    pub level: int,
    pub target_level: int,
    pub id: Seq<char>,
}

/// The sample budget of a stage: `time · sample_rate`, in whole ticks.
pub open spec fn ticks_of(time: int, sample_rate: int) -> int {
    (time * sample_rate) / (ONE as int)
}

/// The one-pole gain for a budget of `n` ticks: `mult / n`, capped into
/// `[0, ONE]`; an empty budget jumps straight to the target.
pub open spec fn gain_of(mult: int, n: int) -> int {
    if n == 0 {
        ONE as int
    } else {
        clamp_s((mult * ONE) / n, 0, ONE as int)
    }
}

/// One smoothing step: `target·gain + (1 - gain)·level`.
pub open spec fn step_level(level: int, target: int, gain: int) -> int {
    fmul_s(target, gain) + fmul_s(ONE - gain, level)
}

/// The velocity gain of a note-on: `from_db((1 - v) · -30)` with the
/// velocity first clamped into `[0, ONE]`.
pub open spec fn velocity_gain_s(velocity: int) -> int {
    from_db_s(fmul_s(ONE - clamp_s(velocity, 0, ONE as int), -30 * ONE))
}

impl ADSRModel {
    /// The invariant every reachable envelope satisfies.
    pub open spec fn wf(self) -> bool {
        &&& 1 <= self.sample_rate <= 192000
        &&& 0 <= self.attack.0 <= MAX_TIME
        &&& 0 <= self.attack.1 <= ONE
        &&& 0 <= self.decay <= MAX_TIME
        &&& 0 <= self.sustain <= ONE
        &&& 0 <= self.release <= MAX_TIME
        &&& 0 <= self.ticks_left
        &&& 0 <= self.gain <= ONE
        &&& 0 <= self.velocity <= ONE
        &&& 0 <= self.level <= ONE
        &&& 0 <= self.target_level <= ONE
    }

    /// What entering a stage does, unconditionally: the stage's full
    /// budget, gain and target are installed; the level is kept, so a
    /// retrigger rises smoothly from wherever it is.
    pub open spec fn enter_s(self, state: ADSRState) -> ADSRModel {
        match state {
            ADSRState::Attack => ADSRModel {
                state,
                ticks_left: ticks_of(self.attack.0, self.sample_rate),
                gain: gain_of(4, ticks_of(self.attack.0, self.sample_rate)),
                target_level: self.attack.1,
                ..self
            },
            ADSRState::Decay => ADSRModel {
                state,
                ticks_left: ticks_of(self.decay, self.sample_rate),
                gain: gain_of(4, ticks_of(self.decay, self.sample_rate)),
                target_level: self.sustain,
                ..self
            },
            ADSRState::Release => ADSRModel {
                state,
                ticks_left: ticks_of(self.release, self.sample_rate),
                gain: gain_of(8, ticks_of(self.release, self.sample_rate)),
                target_level: 0,
                ..self
            },
            _ => ADSRModel { state, ..self },
        }
    }

    /// Moving to a stage along the budget machinery: entering the stage
    /// already active changes nothing.
    pub open spec fn state_change_s(self, state: ADSRState) -> ADSRModel {
        if state == self.state {
            self
        } else {
            self.enter_s(state)
        }
    }

    /// One tick: `Off` is silent, `Sustain` is stationary, and a stage whose
    /// budget is exhausted transitions and produces the new stage's first
    /// sample in the same tick.
    pub open spec fn tick_s(self) -> (ADSRModel, int)
        decreases self.state.rank(),
    {
        match self.state {
            ADSRState::Off => (self, 0),
            ADSRState::Sustain => (self, fmul_s(self.velocity, self.level)),
            _ => {
                if self.ticks_left == 0 {
                    self.state_change_s(self.state.progress_s()).tick_s()
                } else {
                    let l = step_level(self.level, self.target_level, self.gain);
                    (
                        ADSRModel { level: l, ticks_left: self.ticks_left - 1, ..self },
                        fmul_s(self.velocity, l),
                    )
                }
            },
        }
    }

    /// What a control event does to an envelope.
    pub open spec fn handle_s(self, msg: ControlEvent) -> ADSRModel {
        match msg {
            ControlEvent::NoteOn { velocity, .. } => {
                // the attack re-enters with its full budget even when it is
                // already the active stage
                let m = self.enter_s(ADSRState::Attack);
                ADSRModel { velocity: velocity_gain_s(velocity as int), ..m }
            },
            ControlEvent::NoteOff { .. } => self.state_change_s(ADSRState::Release),
            ControlEvent::ADSR { id, attack, decay, sustain, release } => {
                if id@ == self.id {
                    ADSRModel {
                        attack: (clamp_s(attack as int, 0, MAX_TIME as int), self.attack.1),
                        decay: clamp_s(decay as int, 0, MAX_TIME as int),
                        sustain: clamp_s(sustain as int, 0, ONE as int),
                        release: clamp_s(release as int, 0, MAX_TIME as int),
                        ..self
                    }
                } else {
                    self
                }
            },
            _ => self,
        }
    }
}

/// A smoothing step keeps the level inside `[0, ONE]`.
pub proof fn lemma_step_level_range(level: int, target: int, gain: int)
    requires
        0 <= level <= ONE,
        0 <= target <= ONE,
        0 <= gain <= ONE,
    ensures
        0 <= step_level(level, target, gain) <= ONE,
{
    lemma_fmul_nonneg(target, gain);
    lemma_fmul_nonneg(ONE - gain, level);
    assert(target * gain <= ONE as int * gain) by (nonlinear_arith)
        requires
            0 <= target <= ONE,
            0 <= gain,
    ;
    assert((ONE - gain) * level <= (ONE - gain) * ONE) by (nonlinear_arith)
        requires
            0 <= level <= ONE,
            gain <= ONE,
    ;
    lemma_div_is_ordered(target * gain, ONE as int * gain, ONE as int);
    lemma_div_is_ordered((ONE - gain) * level, (ONE - gain) * (ONE as int), ONE as int);
    assert(ONE as int * gain == gain * ONE) by (nonlinear_arith);
    lemma_tdiv_exact(gain, ONE as int);
    lemma_tdiv_exact(ONE - gain, ONE as int);
}

/// Ticking preserves the invariant, and the output is `velocity`-scaled
/// level: nonnegative, at most `ONE`, and exactly zero in `Off`.
pub proof fn lemma_tick_wf(m: ADSRModel)
    requires
        m.wf(),
    ensures
        m.tick_s().0.wf(),
        0 <= m.tick_s().1 <= ONE,
        m.state == ADSRState::Off ==> m.tick_s() == (m, 0int),
    decreases m.state.rank(),
{
    match m.state {
        ADSRState::Off => {},
        ADSRState::Sustain => {
            lemma_fmul_nonneg(m.velocity, m.level);
            lemma_fmul_bound(m.velocity, m.level, ONE as int, ONE as int);
            lemma_tdiv_exact(ONE as int, ONE as int);
            assert(ONE as int * ONE as int == ONE as int * ONE) by (nonlinear_arith);
        },
        _ => {
            if m.ticks_left == 0 {
                let m2 = m.state_change_s(m.state.progress_s());
                lemma_state_change_wf(m, m.state.progress_s());
                lemma_tick_wf(m2);
            } else {
                lemma_step_level_range(m.level, m.target_level, m.gain);
                let l = step_level(m.level, m.target_level, m.gain);
                lemma_fmul_nonneg(m.velocity, l);
                lemma_fmul_bound(m.velocity, l, ONE as int, ONE as int);
                lemma_tdiv_exact(ONE as int, ONE as int);
                assert(ONE as int * ONE as int == ONE as int * ONE) by (nonlinear_arith);
            }
        },
    }
}

/// Entering a stage preserves the invariant.
pub proof fn lemma_enter_wf(m: ADSRModel, st: ADSRState)
    requires
        m.wf(),
    ensures
        m.enter_s(st).wf(),
        m.enter_s(st).state == st,
{
    lemma_ticks_of_range(m.attack.0, m.sample_rate);
    lemma_ticks_of_range(m.decay, m.sample_rate);
    lemma_ticks_of_range(m.release, m.sample_rate);
}

/// Moving to a stage preserves the invariant.
pub proof fn lemma_state_change_wf(m: ADSRModel, st: ADSRState)
    requires
        m.wf(),
    ensures
        m.state_change_s(st).wf(),
        m.state_change_s(st).state == if st == m.state { m.state } else { st },
{
    lemma_enter_wf(m, st);
}

/// A stage budget is a nonnegative number of ticks.
pub proof fn lemma_ticks_of_range(time: int, sample_rate: int)
    requires
        0 <= time,
        0 < sample_rate,
    ensures
        0 <= ticks_of(time, sample_rate),
{
    assert(0 <= time * sample_rate) by (nonlinear_arith)
        requires
            0 <= time,
            0 < sample_rate,
    ;
    lemma_div_pos_is_pos(time * sample_rate, ONE as int);
}

/// The model after `n` ticks.
pub open spec fn run_s(m: ADSRModel, n: nat) -> ADSRModel
    decreases n,
{
    if n == 0 {
        m
    } else {
        run_s(m.tick_s().0, (n - 1) as nat)
    }
}

/// An envelope in `Attack` whose decay budget is not empty reaches `Decay`
/// exactly when its attack budget and one transition tick have elapsed,
/// entering with the decay budget less its first consumed tick and with
/// the timing parameters untouched.
pub proof fn lemma_attack_reaches_decay(m: ADSRModel)
    requires
        m.wf(),
        m.state == ADSRState::Attack,
        ticks_of(m.decay, m.sample_rate) > 0,
    ensures
        ({
            let p = run_s(m, (m.ticks_left + 1) as nat);
            &&& p.state == ADSRState::Decay
            &&& p.ticks_left == ticks_of(m.decay, m.sample_rate) - 1
            &&& p.attack == m.attack && p.decay == m.decay && p.sustain == m.sustain
            &&& p.release == m.release && p.sample_rate == m.sample_rate
            &&& p.velocity == m.velocity
            &&& p.wf()
        }),
    decreases m.ticks_left,
{
    lemma_tick_wf(m);
    if m.ticks_left == 0 {
        let m2 = m.state_change_s(ADSRState::Decay);
        lemma_state_change_wf(m, ADSRState::Decay);
        lemma_tick_wf(m2);
        assert(m.tick_s() == m2.tick_s());
        assert(run_s(m, 1) == run_s(m.tick_s().0, 0));
    } else {
        let m1 = m.tick_s().0;
        lemma_attack_reaches_decay(m1);
        assert(run_s(m, (m.ticks_left + 1) as nat) == run_s(m1, m.ticks_left as nat));
    }
}

/// An envelope in `Decay` reaches `Sustain` exactly when its decay budget
/// and one transition tick have elapsed, and stays there: `Sustain` is
/// stationary under further ticks.
pub proof fn lemma_decay_reaches_sustain(m: ADSRModel)
    requires
        m.wf(),
        m.state == ADSRState::Decay,
    ensures
        run_s(m, (m.ticks_left + 1) as nat).state == ADSRState::Sustain,
        run_s(m, (m.ticks_left + 2) as nat).state == ADSRState::Sustain,
        run_s(m, (m.ticks_left + 2) as nat) == run_s(m, (m.ticks_left + 1) as nat),
    decreases m.ticks_left,
{
    lemma_tick_wf(m);
    if m.ticks_left == 0 {
        let m2 = m.state_change_s(ADSRState::Sustain);
        assert(m2.state == ADSRState::Sustain);
        assert(m2.tick_s() == (m2, fmul_s(m2.velocity, m2.level)));
        assert(run_s(m, 1) == run_s(m.tick_s().0, 0));
        assert(run_s(m, 2) == run_s(m.tick_s().0, 1));
        assert(m.tick_s().0 == m2);
        assert(run_s(m2, 1) == run_s(m2.tick_s().0, 0));
        assert(m2.tick_s().0 == m2);
    } else {
        let m1 = m.tick_s().0;
        lemma_decay_reaches_sustain(m1);
        assert(run_s(m, (m.ticks_left + 1) as nat) == run_s(m1, m.ticks_left as nat));
        assert(run_s(m, (m.ticks_left + 2) as nat) == run_s(m1, (m.ticks_left + 1) as nat));
    }
}

/// An envelope in `Release` reaches `Off` exactly when its release budget
/// and one transition tick have elapsed.
pub proof fn lemma_release_reaches_off(m: ADSRModel)
    requires
        m.wf(),
        m.state == ADSRState::Release,
    ensures
        run_s(m, (m.ticks_left + 1) as nat).state == ADSRState::Off,
    decreases m.ticks_left,
{
    lemma_tick_wf(m);
    if m.ticks_left == 0 {
        let m2 = m.state_change_s(ADSRState::Off);
        assert(m2.state == ADSRState::Off);
        assert(m2.tick_s() == (m2, 0int));
        assert(run_s(m, 1) == run_s(m.tick_s().0, 0));
    } else {
        let m1 = m.tick_s().0;
        lemma_release_reaches_off(m1);
        assert(run_s(m, (m.ticks_left + 1) as nat) == run_s(m1, m.ticks_left as nat));
    }
}

/// Running a tick count in two legs lands on the same model.
pub proof fn lemma_run_s_add(m: ADSRModel, a: nat, b: nat)
    ensures
        run_s(m, a + b) == run_s(run_s(m, a), b),
    decreases a,
{
    if a > 0 {
        lemma_run_s_add(m.tick_s().0, (a - 1) as nat, b);
        assert(run_s(m, a + b) == run_s(m.tick_s().0, ((a - 1) + b) as nat));
    }
}

/// The stage schedule of a freshly retriggered attack, counted in ticks:
/// with the attack budget `A` and a nonempty decay budget `D`, the
/// envelope is in `Decay` after `A + 1` ticks and in `Sustain` after both
/// `A + 1 + D` and `A + 1 + D + 1` ticks — the counts a note-on sets up,
/// since it enters `Attack` with its full budget.
pub proof fn lemma_attack_schedule(m: ADSRModel)
    requires
        m.wf(),
        m.state == ADSRState::Attack,
        m.ticks_left == ticks_of(m.attack.0, m.sample_rate),
        ticks_of(m.decay, m.sample_rate) > 0,
    ensures
        run_s(m, (ticks_of(m.attack.0, m.sample_rate) + 1) as nat).state == ADSRState::Decay,
        run_s(m, (ticks_of(m.attack.0, m.sample_rate) + 1 + ticks_of(m.decay, m.sample_rate)) as nat).state
            == ADSRState::Sustain,
        run_s(m, (ticks_of(m.attack.0, m.sample_rate) + 1 + ticks_of(m.decay, m.sample_rate) + 1) as nat).state
            == ADSRState::Sustain,
{
    let a = ticks_of(m.attack.0, m.sample_rate);
    let d = ticks_of(m.decay, m.sample_rate);
    lemma_attack_reaches_decay(m);
    let p = run_s(m, (a + 1) as nat);
    lemma_decay_reaches_sustain(p);
    lemma_run_s_add(m, (a + 1) as nat, d as nat);
    lemma_run_s_add(m, (a + 1) as nat, (d + 1) as nat);
}

/// In `Off` the envelope never moves and every tick is exactly zero.
pub proof fn lemma_off_forever(m: ADSRModel, n: nat)
    requires
        m.state == ADSRState::Off,
    ensures
        run_s(m, n) == m,
        m.tick_s().1 == 0,
    decreases n,
{
    if n > 0 {
        lemma_off_forever(m, (n - 1) as nat);
    }
}

/// Applying the same `ADSR` timing event twice leaves the same envelope as
/// applying it once; since every trajectory is a function of the model
/// through `tick_s`, both produce the same trajectory.
pub proof fn lemma_adsr_event_idempotent(m: ADSRModel, msg: ControlEvent)
    requires
        msg is ADSR,
    ensures
        m.handle_s(msg).handle_s(msg) == m.handle_s(msg),
{
}

/// The envelope generator.
pub struct ADSR {
    pub sample_rate: usize,
    /// Attack time (Q32 seconds) and attack peak level.
    pub attack: (i64, i64),
    pub decay: i64,
    pub sustain: i64,
    pub release: i64,
    pub state: ADSRState,
    pub ticks_left: u64,
    pub gain: i64,
    pub velocity: i64,
    pub level: i64,
    pub target_level: i64,
    pub id: String,
}

impl View for ADSR {
    type V = ADSRModel;

    open spec fn view(&self) -> ADSRModel {
        ADSRModel {
            sample_rate: self.sample_rate as int,
            attack: (self.attack.0 as int, self.attack.1 as int),
            decay: self.decay as int,
            sustain: self.sustain as int,
            release: self.release as int,
            state: self.state,
            ticks_left: self.ticks_left as int,
            gain: self.gain as int,
            velocity: self.velocity as int,
            level: self.level as int,
            target_level: self.target_level as int,
            id: self.id@,
        }
    }
}

impl ADSR {
    /// An envelope at rest with the stock timing parameters: a 20 ms
    /// attack to -3 dB, a 200 ms decay to a -12 dB sustain, a 600 ms
    /// release.
    pub fn new(sample_rate: usize) -> (r: ADSR)
        requires
            1 <= sample_rate <= 192000,
        ensures
            r@.wf(),
            r@ == (ADSRModel {
                sample_rate: sample_rate as int,
                attack: (85899345int, MINUS_THREE_DB as int),
                decay: 858993459,
                sustain: from_db_s(-12 * ONE),
                release: 2576980377,
                state: ADSRState::Off,
                ticks_left: 0,
                gain: 0,
                velocity: 0,
                level: 0,
                target_level: ONE as int,
                id: Seq::<char>::empty(),
            }),
    {
        let mut adsr = Self::default();
        adsr.sample_rate = sample_rate;
        adsr
    }

    /// An envelope addressed by an id.
    pub fn with_id(sample_rate: usize, id: String) -> (r: ADSR)
        requires
            1 <= sample_rate <= 192000,
        ensures
            r@.wf(),
            r@.state == ADSRState::Off,
            r@.sample_rate == sample_rate,
            r@.id == id@,
            r@.level == 0,
            r@.ticks_left == 0,
    {
        let mut adsr = Self::new(sample_rate);
        adsr.id = id;
        adsr
    }

    /// The current stage.
    pub fn state(&self) -> (r: ADSRState)
        ensures
            r == self@.state,
    {
        self.state
    }

    /// Produces the next envelope sample and advances the stage machinery,
    /// exactly as `ADSRModel::tick_s` describes.
    pub fn tick(&mut self) -> (r: i64)
        requires
            old(self)@.wf(),
        ensures
            final(self)@.wf(),
            (final(self)@, r as int) == old(self)@.tick_s(),
            0 <= r <= ONE,
            old(self)@.state == ADSRState::Off ==> r == 0 && final(self)@ == old(self)@,
        decreases self@.state.rank(),
    {
        proof {
            lemma_tick_wf(self@);
        }
        match self.state {
            ADSRState::Off => 0,
            ADSRState::Sustain => {
                proof {
                    lemma_abs_mul_bound(self.velocity as int, self.level as int, ONE as int, ONE as int);
                }
                fmul(self.velocity, self.level)
            },
            _ => {
                if self.ticks_left == 0 {
                    let next_state = self.state.progress();
                    self.state_change(next_state);
                    self.tick()
                } else {
                    proof {
                        lemma_abs_mul_bound(self.target_level as int, self.gain as int, ONE as int, ONE as int);
                        lemma_abs_mul_bound(ONE - self.gain as int, self.level as int, ONE as int, ONE as int);
                        lemma_step_level_range(self.level as int, self.target_level as int, self.gain as int);
                        lemma_fmul_nonneg(self.target_level as int, self.gain as int);
                        lemma_fmul_nonneg(ONE - self.gain as int, self.level as int);
                    }
                    self.level = fmul(self.target_level, self.gain) + fmul(ONE - self.gain, self.level);
                    self.ticks_left = self.ticks_left - 1;
                    proof {
                        lemma_abs_mul_bound(self.velocity as int, self.level as int, ONE as int, ONE as int);
                    }
                    fmul(self.velocity, self.level)
                }
            },
        }
    }

    /// Moves to a stage along the budget machinery; the stage already
    /// active is left as it is.
    fn state_change(&mut self, state: ADSRState)
        requires
            old(self)@.wf(),
        ensures
            final(self)@ == old(self)@.state_change_s(state),
            final(self)@.wf(),
    {
        if self.state == state {
            return ;
        }
        self.enter(state);
    }

    /// Enters a stage unconditionally: installs its full budget, gain and
    /// target, keeping the level.
    fn enter(&mut self, state: ADSRState)
        requires
            old(self)@.wf(),
        ensures
            final(self)@ == old(self)@.enter_s(state),
            final(self)@.wf(),
    {
        proof {
            lemma_enter_wf(self@, state);
        }
        self.state = state;
        match state {
            ADSRState::Attack => {
                let (time, level) = self.attack;
                self.ticks_left = Self::ticks(time, self.sample_rate);
                self.gain = Self::gain(4, self.ticks_left);
                self.target_level = level;
            },
            ADSRState::Decay => {
                let time = self.decay;
                self.ticks_left = Self::ticks(time, self.sample_rate);
                self.gain = Self::gain(4, self.ticks_left);
                self.target_level = self.sustain;
            },
            ADSRState::Release => {
                let time = self.release;
                self.ticks_left = Self::ticks(time, self.sample_rate);
                self.gain = Self::gain(8, self.ticks_left);
                self.target_level = 0;
            },
            _ => {},
        }
    }

    /// The whole-tick budget of a stage time.
    fn ticks(time: i64, sample_rate: usize) -> (r: u64)
        requires
            0 <= time <= MAX_TIME,
            1 <= sample_rate <= 192000,
        ensures
            r == ticks_of(time as int, sample_rate as int),
            r <= 691_200_000,
    {
        proof {
            lemma_abs_mul_bound(time as int, sample_rate as int, MAX_TIME as int, 192000);
            lemma_ticks_of_range(time as int, sample_rate as int);
            lemma_div_is_ordered(time as int * sample_rate as int, MAX_TIME as int * 192000, ONE as int);
            assert(MAX_TIME as int * 192000 / (ONE as int) == 691_200_000) by (nonlinear_arith);
        }
        (time as u64) * (sample_rate as u64) / (ONE as u64)
    }

    /// The one-pole gain for a budget.
    fn gain(mult: i64, n: u64) -> (r: i64)
        requires
            1 <= mult <= 8,
            n <= 691_200_000,
        ensures
            r == gain_of(mult as int, n as int),
            0 <= r <= ONE,
    {
        if n == 0 {
            ONE
        } else {
            proof {
                lemma_div_pos_is_pos(mult as int * ONE as int, n as int);
                vstd::arithmetic::div_mod::lemma_div_nonincreasing(mult as int * ONE as int, n as int);
            }
            clamp(div_pos(mult * ONE, n as i64), 0, ONE)
        }
    }
}

impl Controllable for ADSR {
    open spec fn inv(&self) -> bool {
        self@.wf()
    }

    /// Note-on retriggers the attack and sets the velocity gain, note-off
    /// releases, and a matching `ADSR` message updates the timing
    /// parameters, exactly as `ADSRModel::handle_s` describes.
    fn handle(&mut self, msg: &ControlEvent)
        ensures
            final(self)@ == old(self)@.handle_s(*msg),
    {
        match msg {
            ControlEvent::NoteOn { velocity, .. } => {
                self.enter(ADSRState::Attack);
                let vc = clamp(*velocity, 0, ONE);
                proof {
                    lemma_abs_mul_bound(ONE - vc as int, -30 * ONE as int, ONE as int, 30 * ONE as int);
                    lemma_fmul_bound(ONE - vc as int, -30 * ONE as int, ONE as int, 30 * ONE as int);
                    lemma_tdiv_exact(30 * ONE as int, ONE as int);
                    assert(ONE as int * (30 * ONE as int) == 30 * ONE as int * ONE) by (nonlinear_arith);
                    lemma_fmul_nonneg(ONE - vc as int, 30 * ONE as int);
                    assert((ONE - vc as int) * (30 * (ONE as int)) == -((ONE - vc as int) * (-30 * (ONE as int)))) by (nonlinear_arith);
                }
                self.velocity = from_db(fmul(ONE - vc, -30 * ONE));
            },
            ControlEvent::NoteOff { .. } => self.state_change(ADSRState::Release),
            ControlEvent::ADSR { id, attack, decay, sustain, release } => {
                if id.eq(&self.id) {
                    self.attack.0 = clamp(*attack, 0, MAX_TIME);
                    self.decay = clamp(*decay, 0, MAX_TIME);
                    self.sustain = clamp(*sustain, 0, ONE);
                    self.release = clamp(*release, 0, MAX_TIME);
                }
            },
            _ => (),
        }
    }
}

impl Default for ADSR {
    /// An envelope at rest: 20 ms attack to -3 dB, 200 ms decay to a
    /// -12 dB sustain, 600 ms release, at a 48 kHz rate.
    fn default() -> (r: ADSR)
        ensures
            r@.wf(),
            r@.state == ADSRState::Off,
            r@.sample_rate == 48000,
            r@.id == Seq::<char>::empty(),
            r@.level == 0,
            r@.ticks_left == 0,
            r@.velocity == 0,
            r@.attack == (85899345int, MINUS_THREE_DB as int),
            r@.decay == 858993459,
            r@.sustain == from_db_s(-12 * ONE),
            r@.release == 2576980377,
            r@.gain == 0,
            r@.target_level == ONE,
    {
        ADSR {
            attack: (85899345, MINUS_THREE_DB),
            decay: 858993459,
            sustain: from_db(-12 * ONE),
            release: 2576980377,
            sample_rate: 48000,
            state: ADSRState::Off,
            ticks_left: 0,
            gain: 0,
            level: 0,
            velocity: 0,
            target_level: ONE,
            id: String::new(),
        }
    }
}

} // verus!
