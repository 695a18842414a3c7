//! The initial conditions of a simulation and their validation.

use crate::boundary::Boundary;
use crate::boundary::Vector3;
use crate::error::ErrorKind;
use crate::error::InvalidParamError;
use crate::ring_buffer::pushed;
use crate::ring_buffer::RingBuffer;
use crate::scalar::Scalar;
use crate::scalar::HALF_BITS;
use crate::scalar::MILLI_BITS;
use crate::scalar::ONE_BITS;
use crate::scalar::ZERO_BITS;
use crate::sim_space::Grid;
use vstd::prelude::*;

verus! {

/// The default edge length of a grid cell: `1.0`.
pub const DEFAULT_UNIT_SIZE_BITS: u64 = ONE_BITS;

/// The default time step: `0.001`.
pub const DEFAULT_DT_BITS: u64 = MILLI_BITS;

/// The default number of steps per frame.
pub const DEFAULT_STEPS_PER_FRAME: usize = 20;

/// The initial conditions of a simulation. They are set one by one and then
/// compiled, which checks them against each other.
pub struct SimulationPrototype {
    bound: Boundary,
    grid_unit_size: Scalar,
    grid_reach: usize,
    dt: Scalar,
    steps_per_frame: usize,
    ext_a: Vector3,
    target_temp: Scalar,
    inject_rate: Scalar,
    particles: Vec<Vector3>,
}

/// What a prototype holds.
pub struct Conditions {
    /// The box that confines the particles.
    pub bound: Boundary,
    /// The edge length of a grid cell.
    pub grid_unit_size: Scalar,
    /// The cutoff of the interaction, in whole cells.
    pub grid_reach: nat,
    /// The time step.
    pub dt: Scalar,
    /// The number of steps taken per frame.
    pub steps_per_frame: nat,
    /// The acceleration applied to every particle from outside.
    pub ext_a: Vector3,
    /// The temperature that heat injection drives the particles towards.
    pub target_temp: Scalar,
    /// The rate of heat injection.
    pub inject_rate: Scalar,
    /// The position of each particle.
    pub particles: Seq<Vector3>,
}

/// `kind` if `violated`, else nothing.
pub open spec fn found(violated: bool, kind: ErrorKind) -> Seq<ErrorKind> {
    if violated {
        seq![kind]
    } else {
        Seq::empty()
    }
}

impl Conditions {
    /// Every particle lies in the box.
    pub open spec fn particles_inside(self) -> bool {
        forall|i: int| 0 <= i < self.particles.len() ==> self.bound.contains(#[trigger] self.particles[i])
    }

    /// Every kind of constraint that the conditions violate, each once, in a fixed order.
    pub open spec fn violations(self) -> Seq<ErrorKind> {
        let zero = Scalar { bits: ZERO_BITS };
        found(!self.bound.valid(), ErrorKind::Bound)
            + found(self.grid_unit_size.spec_lt(zero), ErrorKind::UnitSize)
            + found(self.grid_reach < 1, ErrorKind::Reach)
            + found(self.dt.spec_le(zero), ErrorKind::Dt)
            + found(self.steps_per_frame == 0, ErrorKind::StepsPerFrame)
            + found(
                self.target_temp.spec_lt(zero) || self.inject_rate.spec_lt(zero),
                ErrorKind::ExtCond,
            )
            + found(!self.particles_inside(), ErrorKind::Particle)
    }
}

/// Conditions that passed validation: what a simulation starts from.
pub struct VDWSimulation {
    pub particles: Vec<Vector3>,
    pub bound: Boundary,
    pub grid: Grid,
    pub dt: Scalar,
    pub steps_per_frame: usize,
    pub ext_accel: Vector3,
    pub target_temp: Scalar,
    pub inject_rate: Scalar,
}

impl VDWSimulation {
    /// The conditions that the simulation was compiled from.
    pub open spec fn conditions(self) -> Conditions {
        Conditions {
            bound: self.bound,
            grid_unit_size: self.grid.spec_unit_size(),
            grid_reach: self.grid.spec_reach(),
            dt: self.dt,
            steps_per_frame: self.steps_per_frame as nat,
            ext_a: self.ext_accel,
            target_temp: self.target_temp,
            inject_rate: self.inject_rate,
            particles: self.particles@,
        }
    }
}

impl View for SimulationPrototype {
    type V = Conditions;

    closed spec fn view(&self) -> Conditions {
        Conditions {
            bound: self.bound,
            grid_unit_size: self.grid_unit_size,
            grid_reach: self.grid_reach as nat,
            dt: self.dt,
            steps_per_frame: self.steps_per_frame as nat,
            ext_a: self.ext_a,
            target_temp: self.target_temp,
            inject_rate: self.inject_rate,
            particles: self.particles@,
        }
    }
}

/// Copies a list of positions.
fn copy_positions(v: &Vec<Vector3>) -> (r: Vec<Vector3>)
    ensures
        r@ == v@,
{
    let mut r: Vec<Vector3> = Vec::new();
    let mut i: usize = 0;
    while i < v.len()
        invariant
            i <= v@.len(),
            r@ == v@.take(i as int),
        decreases v@.len() - i,
    {
        r.push(v[i]);
        assert(v@.take(i + 1) =~= v@.take(i as int).push(v@[i as int]));
        i += 1;
    }
    assert(v@.take(i as int) =~= v@);
    r
}

/// Adds `kind` to `errors` if `violated`.
fn note(errors: &mut Vec<ErrorKind>, violated: bool, kind: ErrorKind)
    ensures
        final(errors)@ == old(errors)@ + found(violated, kind),
{
    if violated {
        errors.push(kind);
        assert(errors@ =~= old(errors)@ + found(violated, kind));
    } else {
        assert(errors@ =~= old(errors)@ + found(violated, kind));
    }
}

impl SimulationPrototype {
    /// A prototype with the default conditions: the default box, cells of
    /// `1.0` with a reach of one cell, a time step of `0.001`, twenty steps
    /// per frame, nothing applied from outside, and no particle.
    pub fn new() -> (p: Self)
        ensures
            p@.bound.x.bits == crate::boundary::DEFAULT_LEN_BITS,
            p@.bound.y.bits == crate::boundary::DEFAULT_LEN_BITS,
            p@.bound.z.bits == crate::boundary::DEFAULT_LEN_BITS,
            p@.grid_unit_size.bits == DEFAULT_UNIT_SIZE_BITS,
            p@.grid_reach == 1,
            p@.dt.bits == DEFAULT_DT_BITS,
            p@.steps_per_frame == DEFAULT_STEPS_PER_FRAME,
            p@.ext_a == Vector3::zero(),
            p@.target_temp.bits == ZERO_BITS,
            p@.inject_rate.bits == ZERO_BITS,
            p@.particles == Seq::<Vector3>::empty(),
    {
        let zero = Scalar::from_bits(ZERO_BITS);
        Self {
            bound: Boundary::new(),
            grid_unit_size: Scalar::from_bits(DEFAULT_UNIT_SIZE_BITS),
            grid_reach: 1,
            dt: Scalar::from_bits(DEFAULT_DT_BITS),
            steps_per_frame: DEFAULT_STEPS_PER_FRAME,
            ext_a: Vector3::new(zero, zero, zero),
            target_temp: zero,
            inject_rate: zero,
            particles: Vec::new(),
        }
    }

    pub fn get_bound(&self) -> (b: Boundary)
        ensures
            b == self@.bound,
    {
        self.bound
    }

    pub fn set_bound_x(self, val: Scalar) -> (p: Self)
        ensures
            p@ == (Conditions { bound: Boundary { x: val, ..self@.bound }, ..self@ }),
    {
        let mut p = self;
        p.bound.x = val;
        p
    }

    pub fn set_bound_y(self, val: Scalar) -> (p: Self)
        ensures
            p@ == (Conditions { bound: Boundary { y: val, ..self@.bound }, ..self@ }),
    {
        let mut p = self;
        p.bound.y = val;
        p
    }

    pub fn set_bound_z(self, val: Scalar) -> (p: Self)
        ensures
            p@ == (Conditions { bound: Boundary { z: val, ..self@.bound }, ..self@ }),
    {
        let mut p = self;
        p.bound.z = val;
        p
    }

    pub fn set_grid_unit_size(self, unit_size: Scalar) -> (p: Self)
        ensures
            p@ == (Conditions { grid_unit_size: unit_size, ..self@ }),
    {
        let mut p = self;
        p.grid_unit_size = unit_size;
        p
    }

    pub fn set_grid_reach(self, reach: usize) -> (p: Self)
        ensures
            p@ == (Conditions { grid_reach: reach as nat, ..self@ }),
    {
        let mut p = self;
        p.grid_reach = reach;
        p
    }

    pub fn set_dt(self, dt: Scalar) -> (p: Self)
        ensures
            p@ == (Conditions { dt, ..self@ }),
    {
        let mut p = self;
        p.dt = dt;
        p
    }

    pub fn set_steps_per_frame(self, spf: usize) -> (p: Self)
        ensures
            p@ == (Conditions { steps_per_frame: spf as nat, ..self@ }),
    {
        let mut p = self;
        p.steps_per_frame = spf;
        p
    }

    pub fn set_ext_a(self, ext_a: Vector3) -> (p: Self)
        ensures
            p@ == (Conditions { ext_a, ..self@ }),
    {
        let mut p = self;
        p.ext_a = ext_a;
        p
    }

    pub fn set_target_temp(self, target_temp: Scalar) -> (p: Self)
        ensures
            p@ == (Conditions { target_temp, ..self@ }),
    {
        let mut p = self;
        p.target_temp = target_temp;
        p
    }

    pub fn set_inject_rate(self, inject_rate: Scalar) -> (p: Self)
        ensures
            p@ == (Conditions { inject_rate, ..self@ }),
    {
        let mut p = self;
        p.inject_rate = inject_rate;
        p
    }

    /// Sets the particles, each by its position.
    pub fn set_particles(self, particles: Vec<Vector3>) -> (p: Self)
        ensures
            p@ == (Conditions { particles: particles@, ..self@ }),
    {
        let mut p = self;
        p.particles = particles;
        p
    }

    /// Checks the conditions against every constraint and, if none is
    /// violated, hands them on as a simulation to start. Otherwise the error
    /// lists every violated kind, not only the first.
    pub fn compile(&self) -> (r: Result<VDWSimulation, InvalidParamError>)
        ensures
            match r {
                Ok(sim) => self@.violations() == Seq::<ErrorKind>::empty() && sim.conditions()
                    == self@,
                Err(e) => e@ == self@.violations() && e@.len() > 0,
            },
    {
        let zero = Scalar::from_bits(ZERO_BITS);
        let mut errors: Vec<ErrorKind> = Vec::new();
        let ghost c = self@;
        note(&mut errors, !self.bound.is_valid(), ErrorKind::Bound);
        note(&mut errors, self.grid_unit_size.lt(zero), ErrorKind::UnitSize);
        note(&mut errors, self.grid_reach < 1, ErrorKind::Reach);
        note(&mut errors, self.dt.le(zero), ErrorKind::Dt);
        note(&mut errors, self.steps_per_frame == 0, ErrorKind::StepsPerFrame);
        note(
            &mut errors,
            self.target_temp.lt(zero) || self.inject_rate.lt(zero),
            ErrorKind::ExtCond,
        );
        note(&mut errors, !self.all_inside(), ErrorKind::Particle);
        assert(Seq::<ErrorKind>::empty() + found(!c.bound.valid(), ErrorKind::Bound) =~= found(
            !c.bound.valid(),
            ErrorKind::Bound,
        ));
        assert(errors@ =~= c.violations());
        if errors.len() > 0 {
            Err(InvalidParamError::new(errors))
        } else {
            Ok(
                VDWSimulation {
                    particles: copy_positions(&self.particles),
                    bound: self.bound,
                    grid: Grid::new(self.grid_unit_size, self.grid_reach),
                    dt: self.dt,
                    steps_per_frame: self.steps_per_frame,
                    ext_accel: self.ext_a,
                    target_temp: self.target_temp,
                    inject_rate: self.inject_rate,
                },
            )
        }
    }

    /// Whether every particle lies in the box.
    fn all_inside(&self) -> (b: bool)
        ensures
            b == self@.particles_inside(),
    {
        let mut i: usize = 0;
        while i < self.particles.len()
            invariant
                i <= self.particles@.len(),
                forall|j: int| 0 <= j < i ==> self.bound.contains(#[trigger] self.particles@[j]),
            decreases self.particles@.len() - i,
        {
            if !self.bound.contains_position(self.particles[i]) {
                assert(!self@.bound.contains(self@.particles[i as int]));
                return false;
            }
            i += 1;
        }
        true
    }
}

/// What a frame does to the rate at which the boundary grows.
#[derive(Clone, Copy, PartialEq, Eq, Structural, Debug)]
pub enum BoundRateUpdate {
    /// Pressure is pinned: the rate follows from the measured pressure.
    Regulate,
    /// Pressure was released during this frame: the rate goes back to zero.
    Reset,
    /// Pressure is not pinned: the rate stays as the host set it.
    Keep,
}

/// The switch that pins pressure at a value, with the state it had one frame
/// earlier, by which a release is noticed.
#[derive(Clone, Copy, PartialEq, Eq, Structural, Debug)]
pub struct PressurePinned {
    pub previous_state: bool,
    pub is_pinned: bool,
    pub at_value: Scalar,
}

impl PressurePinned {
    /// What a frame that ends in this state does to the boundary rate.
    pub open spec fn update(self) -> BoundRateUpdate {
        if self.is_pinned {
            BoundRateUpdate::Regulate
        } else if self.previous_state {
            BoundRateUpdate::Reset
        } else {
            BoundRateUpdate::Keep
        }
    }

    /// The state in which the next frame starts, if the host does not touch the switch.
    pub open spec fn settled(self) -> PressurePinned {
        PressurePinned { previous_state: self.is_pinned, ..self }
    }

    /// The switch as a simulation starts with it: off, and pinning at `0.5`.
    pub fn new() -> (p: Self)
        ensures
            !p.previous_state,
            !p.is_pinned,
            p.at_value.bits == HALF_BITS,
    {
        Self { previous_state: false, is_pinned: false, at_value: Scalar::from_bits(HALF_BITS) }
    }

    /// Ends a frame: says what the frame does to the boundary rate and
    /// remembers the state of the switch for the next frame.
    pub fn end_frame(&mut self) -> (u: BoundRateUpdate)
        ensures
            u == old(self).update(),
            *final(self) == old(self).settled(),
    {
        let u = if self.is_pinned {
            BoundRateUpdate::Regulate
        } else if self.previous_state {
            BoundRateUpdate::Reset
        } else {
            BoundRateUpdate::Keep
        };
        self.previous_state = self.is_pinned;
        u
    }
}

/// A release resets the boundary rate exactly once: in the frame in which the
/// switch is found off after a frame in which it was on, and in no later frame
/// for as long as the switch stays off.
pub proof fn lemma_reset_once(p: PressurePinned)
    ensures
        p.update() == BoundRateUpdate::Reset <==> (p.previous_state && !p.is_pinned),
        !p.is_pinned ==> p.settled().update() == BoundRateUpdate::Keep,
        !p.is_pinned ==> p.settled().settled() == p.settled(),
{
}

/// The energy of all particles at the end of a frame.
#[derive(Clone, Copy, PartialEq, Eq, Structural, Debug)]
pub struct Energy {
    pub kinetic: Scalar,
    pub potential: Scalar,
}

impl Default for Energy {
    /// No energy of either kind.
    fn default() -> (e: Self)
        ensures
            e.kinetic.bits == ZERO_BITS,
            e.potential.bits == ZERO_BITS,
    {
        Energy { kinetic: Scalar::from_bits(ZERO_BITS), potential: Scalar::from_bits(ZERO_BITS) }
    }
}

/// The energy and the pressure of the latest frames, one entry of each per
/// frame. It is kept for display and takes no part in the dynamics.
#[derive(Clone)]
pub struct History {
    energy: RingBuffer<Energy>,
    pressure: RingBuffer<Scalar>,
}

impl History {
    /// The energies held, oldest first.
    pub closed spec fn energies(&self) -> Seq<Energy> {
        self.energy@
    }

    /// The pressures held, oldest first.
    pub closed spec fn pressures(&self) -> Seq<Scalar> {
        self.pressure@
    }

    /// The number of frames that the history retains.
    pub closed spec fn cap(&self) -> nat {
        self.energy.cap()
    }

    /// Both buffers are sound, of one capacity, and hold the same frames.
    pub closed spec fn wf(&self) -> bool {
        &&& self.energy.wf()
        &&& self.pressure.wf()
        &&& self.energy.cap() == self.pressure.cap()
        &&& self.energy@.len() == self.pressure@.len()
    }

    /// A sound history holds as many pressures as energies, and no more than its capacity.
    pub proof fn lemma_wf(&self)
        requires
            self.wf(),
        ensures
            self.energies().len() == self.pressures().len(),
            self.energies().len() <= self.cap(),
    {
    }

    pub fn with_capacity(capacity: usize) -> (h: Self)
        ensures
            h.wf(),
            h.cap() == capacity,
            h.energies() == Seq::<Energy>::empty(),
            h.pressures() == Seq::<Scalar>::empty(),
    {
        Self {
            energy: RingBuffer::with_capacity(capacity),
            pressure: RingBuffer::with_capacity(capacity),
        }
    }

    /// Appends the energy and the pressure of a frame. Once the history is
    /// full, the oldest frame leaves it.
    pub fn record(&mut self, energy: Energy, pressure: Scalar)
        requires
            old(self).wf(),
        ensures
            final(self).wf(),
            final(self).cap() == old(self).cap(),
            final(self).energies() == pushed(old(self).energies(), old(self).cap(), energy),
            final(self).pressures() == pushed(old(self).pressures(), old(self).cap(), pressure),
    {
        self.energy.push(energy);
        self.pressure.push(pressure);
    }

    /// The energies held.
    pub fn energy(&self) -> (b: &RingBuffer<Energy>)
        ensures
            b@ == self.energies(),
            b.cap() == self.cap(),
            self.wf() ==> b.wf(),
    {
        &self.energy
    }

    /// The pressures held.
    pub fn pressure(&self) -> (b: &RingBuffer<Scalar>)
        ensures
            b@ == self.pressures(),
            self.wf() ==> b.cap() == self.cap() && b.wf(),
    {
        &self.pressure
    }
}

} // verus!
