//! Driving the automaton: the parameters of a run, the record of their changes, the
//! step counter, and what one tick of the driver does.

use vstd::prelude::*;
use ndarray_rand::rand::rngs::StdRng;
use crate::grid::{fits, is_square};
use crate::lattice::Ring;
use crate::layer::Layer;
use crate::rules::{Evidence, Rules};
use crate::state::{picture, seed, Lattices, State};

verus! {

/// The parameters of the model.
#[derive(Debug, PartialEq)]
pub struct SimulationConfigInner<T> {
    /// vapor density at step zero
    pub rho: T,
    /// threshold of boundary mass for tips and flat spots
    pub beta: T,
    /// threshold of boundary mass for concave spots
    pub alpha: T,
    /// threshold of vapor around a concave spot
    pub theta: T,
    /// share of the vapor that freezes directly into crystal
    pub kappa: T,
    /// share of the boundary mass that melts
    pub mu: T,
    /// share of the crystal mass that sublimates
    pub gamma: T,
    /// strength of the noise
    pub sigma: T,
}

/// The parameters that were in force from a given step on.
#[derive(Debug, PartialEq)]
pub struct SimulationConfigLogRecord<T> {
    pub step: u64,
    pub rho: T,
    pub beta: T,
    pub alpha: T,
    pub theta: T,
    pub kappa: T,
    pub mu: T,
    pub gamma: T,
    pub sigma: T,
}

impl<T: Copy> Clone for SimulationConfigInner<T> {
    fn clone(&self) -> (r: Self)
        ensures
            r == *self,
    {
        *self
    }
}

impl<T: Copy> Copy for SimulationConfigInner<T> {

}

impl<T: Copy> Clone for SimulationConfigLogRecord<T> {
    fn clone(&self) -> (r: Self)
        ensures
            r == *self,
    {
        *self
    }
}

impl<T: Copy> Copy for SimulationConfigLogRecord<T> {

}

impl<T: Copy> SimulationConfigLogRecord<T> {
    /// The record of `config` at `step`.
    pub open spec fn of(step: u64, config: SimulationConfigInner<T>) -> Self {
        SimulationConfigLogRecord {
            step,
            rho: config.rho,
            beta: config.beta,
            alpha: config.alpha,
            theta: config.theta,
            kappa: config.kappa,
            mu: config.mu,
            gamma: config.gamma,
            sigma: config.sigma,
        }
    }

    /// The record of `config` at `step`.
    pub fn new(step: u64, config: &SimulationConfigInner<T>) -> (r: Self)
        ensures
            r == Self::of(step, *config),
    {
        SimulationConfigLogRecord {
            step,
            rho: config.rho,
            beta: config.beta,
            alpha: config.alpha,
            theta: config.theta,
            kappa: config.kappa,
            mu: config.mu,
            gamma: config.gamma,
            sigma: config.sigma,
        }
    }
}

/// The record of the changes of the parameters during a run, oldest first.
pub struct SimulationConfigLogInner<T> {
    log: Vec<SimulationConfigLogRecord<T>>,
}

impl<T> View for SimulationConfigLogInner<T> {
    type V = Seq<SimulationConfigLogRecord<T>>;

    closed spec fn view(&self) -> Seq<SimulationConfigLogRecord<T>> {
        self.log@
    }
}

impl<T: Copy> SimulationConfigLogInner<T> {
    /// An empty record.
    pub fn new() -> (r: Self)
        ensures
            r@ == Seq::<SimulationConfigLogRecord<T>>::empty(),
    {
        SimulationConfigLogInner { log: Vec::new() }
    }

    /// Adds a record at the end.
    pub fn push(&mut self, record: SimulationConfigLogRecord<T>)
        ensures
            final(self)@ == old(self)@.push(record),
    {
        self.log.push(record);
    }

    /// Forgets all records.
    pub fn clear(&mut self)
        ensures
            final(self)@ == Seq::<SimulationConfigLogRecord<T>>::empty(),
    {
        self.log.clear();
    }

    /// The number of records.
    pub fn len(&self) -> (r: usize)
        ensures
            r == self@.len(),
    {
        self.log.len()
    }

    /// The record at position `at`.
    pub fn get(&self, at: usize) -> (r: SimulationConfigLogRecord<T>)
        requires
            at < self@.len(),
        ensures
            r == self@[at as int],
    {
        self.log[at]
    }
}

/// What the driver and its observers share: the picture of the crystal, the number
/// of steps taken, and whether the run is going on.
pub struct FieldInner<T> {
    pub cells: Layer<T>,
    pub step: u64,
    pub is_running: bool,
}

impl<T: Copy> FieldInner<T> {
    /// A blank picture of side `n` at step zero, not running.
    pub fn new(n: usize, zero: T) -> (f: Self)
        ensures
            is_square(f.cells@, n as int),
            forall|i: int, j: int| 0 <= i < n && 0 <= j < n ==> (#[trigger] f.cells@[i][j]) == zero,
            f.step == 0,
            !f.is_running,
    {
        FieldInner { cells: Layer::filled(n, n, zero), step: 0, is_running: false }
    }
}

/// What a tick of the driver did, for those who report on it.
#[derive(Clone, Copy, Debug, PartialEq, Eq)]
pub struct Tick {
    /// The crystal was rebuilt from the seed.
    pub rebuilt: bool,
    /// The parameters were recorded.
    pub recorded: bool,
    /// The total mass is due to be reported: the step taken was a hundredth.
    pub report_mass: bool,
    /// A step was taken.
    pub advanced: bool,
}

/// What a tick does, decided on the step counter, on whether the run is going on,
/// and on whether the parameters differ from those of the tick before: at step zero
/// the crystal is rebuilt; a run that is paused does nothing else; a run that is
/// going on records the parameters if they have changed or the crystal was rebuilt,
/// and takes a step.
pub open spec fn plan(step: u64, running: bool, changed: bool) -> Tick {
    Tick {
        rebuilt: step == 0,
        recorded: running && (changed || step == 0),
        report_mass: running && step % 100 == 0,
        advanced: running,
    }
}

/// Decides what a tick does: see [`plan`].
pub fn plan_tick(step: u64, running: bool, changed: bool) -> (t: Tick)
    ensures
        t == plan(step, running, changed),
{
    Tick {
        rebuilt: step == 0,
        recorded: running && (changed || step == 0),
        report_mass: running && step % 100 == 0,
        advanced: running,
    }
}

/// The crystal from which a tick starts: the seed if the step counter is at zero,
/// the crystal as it stands otherwise.
pub open spec fn base<T>(
    step: u64,
    s: Lattices<T>,
    n: int,
    zero: T,
    rho: T,
    seed_mass: T,
) -> Lattices<T> {
    if step == 0 {
        seed(n, zero, rho, seed_mass)
    } else {
        s
    }
}

/// One tick of the driver.
///
/// A reset is asked for by setting the step counter to zero. It takes effect here,
/// before a step is taken and never within one: the record is cleared and the
/// crystal rebuilt from the seed with the vapor density of `config`. A run that is
/// going on then records `config` if it has changed or the crystal was rebuilt,
/// counts the step, and takes it, with noise if `noisy`. In the end the picture
/// shows the crystal as it stands.
pub fn tick<T: Copy, D, F, P, A, M, N>(
    field: &mut FieldInner<T>,
    state: &mut State<T>,
    log: &mut SimulationConfigLogInner<T>,
    config: &SimulationConfigInner<T>,
    changed: bool,
    seed_mass: T,
    rules: &Rules<T, D, F, P, A, M, N>,
    noisy: bool,
    rng: &mut StdRng,
) -> (t: Tick) where
    D: Fn(T, Ring<T>, u8) -> T,
    F: Fn(T, T, T) -> (T, T),
    P: Fn(T, Ring<T>) -> Evidence,
    A: Fn(T, T) -> T,
    M: Fn(T, T, T) -> (T, T, T),
    N: Fn(T, bool) -> T,

    requires
        rules.total(),
        old(field).step < u64::MAX,
        old(field).cells@.len() > 0,
        fits(old(field).cells@.len() as int, old(field).cells@.len() as int),
        old(field).step > 0 ==> old(state).wf() && old(state)@.side() == old(field).cells@.len(),
    ensures
        t == plan(old(field).step, old(field).is_running, changed),
        final(field).is_running == old(field).is_running,
        final(field).step == if t.advanced {
            old(field).step + 1
        } else {
            old(field).step as int
        },
        final(log)@ == {
            let kept = if t.rebuilt {
                Seq::<SimulationConfigLogRecord<T>>::empty()
            } else {
                old(log)@
            };
            if t.recorded {
                kept.push(SimulationConfigLogRecord::of(old(field).step, *config))
            } else {
                kept
            }
        },
        t.rebuilt || t.advanced ==> final(state).wf() && final(state)@.side() == old(
            field,
        ).cells@.len(),
        ({
            let from = base(
                old(field).step,
                old(state)@,
                old(field).cells@.len() as int,
                rules.zero,
                config.rho,
                seed_mass,
            );
            if !t.advanced {
                final(state)@ == from
            } else if noisy {
                rules.stepped_with_noise(from, final(state)@)
            } else {
                rules.stepped(from, final(state)@)
            }
        }),
        t.rebuilt || t.advanced ==> final(field).cells@ == picture(final(state)@, rules.zero),
        !t.rebuilt && !t.advanced ==> final(field).cells@ == old(field).cells@,
{
    let t = plan_tick(field.step, field.is_running, changed);
    let n = field.cells.rows.len();
    if t.rebuilt {
        log.clear();
        *state = State::new(n, rules.zero, config.rho, seed_mass);
        field.cells = state.snapshot(rules.zero);
    }
    if !t.advanced {
        return t;
    }
    if t.recorded {
        log.push(SimulationConfigLogRecord::new(field.step, config));
    }
    field.step = field.step + 1;
    if noisy {
        state.update_with_noise(rules, rng);
    } else {
        state.update(rules);
    }
    field.cells = state.snapshot(rules.zero);
    t
}

} // verus!
