//! System pipeline and fixed-timestep scheduler.
//!
//! Systems are registered once, at startup, into one of two cadence groups.
//! Each frame, the scheduler feeds the frame's wall-clock delta into an
//! accumulator, runs every fixed-cadence system once per whole fixed
//! interval held by the accumulator (zero, one or many times), then runs
//! every render-cadence system once with the actual frame delta.  All time
//! is measured in microseconds.

use vstd::arithmetic::div_mod::lemma_fundamental_div_mod_converse;
use vstd::arithmetic::mul::lemma_mul_inequality;
use vstd::prelude::*;

use crate::ecs::World;
use crate::ecs::WorldModel;

verus! {

/// Fixed simulation interval: one thirtieth of a second, in microseconds.
pub const FIXED_UPDATE_INTERVAL_MICROS: u64 = 33333;

/// One behavior unit driven by the scheduler.  Implementors read and write
/// the world's columns and resources during one step.
pub trait System<V>: Sized {
    /// Mathematical effect of one step: the world model after running this
    /// system with the given delta time on the given world model.
    spec fn step(&self, m: WorldModel<V>, delta_micros: u64) -> WorldModel<V>;

    /// Execute one step with the given delta time in microseconds.
    fn update(&self, world: &mut World<V>, delta_micros: u64)
        requires
            old(world).inv(),
        ensures
            final(world).inv(),
            final(world)@ == self.step(old(world)@, delta_micros),
    ;
}

/// The world model after one cadence group has run once, in registration
/// order, each system with the given delta time.
pub open spec fn run_group_t<V, S: System<V>>(
    m: WorldModel<V>,
    group: Seq<S>,
    delta_micros: u64,
) -> WorldModel<V>
    decreases group.len(),
{
    if group.len() == 0 {
        m
    } else {
        run_group_t(group[0].step(m, delta_micros), group.drop_first(), delta_micros)
    }
}

/// The world model after the fixed-cadence group has run the given number
/// of times, each run with the fixed interval as its delta time.
pub open spec fn run_ticks_t<V, S: System<V>>(
    m: WorldModel<V>,
    group: Seq<S>,
    interval_micros: u64,
    ticks: nat,
) -> WorldModel<V>
    decreases ticks,
{
    if ticks == 0 {
        m
    } else {
        run_ticks_t(run_group_t(m, group, interval_micros), group, interval_micros, (ticks - 1) as nat)
    }
}

/// The world model after one whole frame: all owed fixed ticks, then the
/// render group once with the actual frame delta.
pub open spec fn run_frame_t<V, S: System<V>>(
    m: WorldModel<V>,
    fixed_group: Seq<S>,
    render_group: Seq<S>,
    interval_micros: u64,
    ticks: nat,
    frame_delta_micros: u64,
) -> WorldModel<V> {
    run_group_t(
        run_ticks_t(m, fixed_group, interval_micros, ticks),
        render_group,
        frame_delta_micros,
    )
}

/// Running a group extended by one system is running the group, then the
/// added system.
proof fn lemma_run_group_push<V, S: System<V>>(
    m: WorldModel<V>,
    group: Seq<S>,
    system: S,
    delta_micros: u64,
)
    ensures
        run_group_t(m, group.push(system), delta_micros)
            == system.step(run_group_t(m, group, delta_micros), delta_micros),
    decreases group.len(),
{
    let extended = group.push(system);
    assert(run_group_t(m, extended, delta_micros)
        == run_group_t(extended[0].step(m, delta_micros), extended.drop_first(), delta_micros));
    if group.len() == 0 {
        assert(extended.drop_first() =~= Seq::<S>::empty());
        assert(extended[0] == system);
        assert(run_group_t(system.step(m, delta_micros), Seq::<S>::empty(), delta_micros)
            == system.step(m, delta_micros));
    } else {
        assert(extended[0] == group[0]);
        assert(extended.drop_first() =~= group.drop_first().push(system));
        lemma_run_group_push(
            group[0].step(m, delta_micros),
            group.drop_first(),
            system,
            delta_micros,
        );
        assert(run_group_t(m, group, delta_micros)
            == run_group_t(group[0].step(m, delta_micros), group.drop_first(), delta_micros));
    }
}

/// Which cadence group a system is registered into.
pub enum SystemType {
    /// Runs once per frame with the variable frame delta.
    Render,
    /// Runs once per elapsed fixed interval with the fixed delta.
    FixedUpdate,
}

/// Accumulated unconsumed time and the fixed tick interval.
pub struct SystemTiming {
    accumulated_micros: u64,
    interval_micros: u64,
}

impl SystemTiming {
    /// Unconsumed time carried between frames, in microseconds.
    pub closed spec fn accumulated(self) -> u64 {
        self.accumulated_micros
    }

    /// The fixed tick interval, in microseconds.
    pub closed spec fn interval(self) -> u64 {
        self.interval_micros
    }

    /// The interval is positive, so catch-up always terminates.
    pub open spec fn wf(self) -> bool {
        self.interval() >= 1
    }

    /// Timing state with a caller-chosen fixed interval and nothing
    /// accumulated yet.
    pub fn with_interval(interval_micros: u64) -> (timing: SystemTiming)
        requires
            interval_micros >= 1,
        ensures
            timing.wf(),
            timing.accumulated() == 0,
            timing.interval() == interval_micros,
    {
        SystemTiming { accumulated_micros: 0, interval_micros }
    }
}

impl Default for SystemTiming {
    /// Nothing accumulated; the interval is one thirtieth of a second.
    fn default() -> (timing: SystemTiming)
        ensures
            timing.wf(),
            timing.accumulated() == 0,
            timing.interval() == FIXED_UPDATE_INTERVAL_MICROS,
    {
        SystemTiming {
            accumulated_micros: 0,
            interval_micros: FIXED_UPDATE_INTERVAL_MICROS,
        }
    }
}

/// The two ordered cadence groups and the shared timing state.
pub struct SystemContainer<S> {
    render_systems: Vec<S>,
    fixed_update_systems: Vec<S>,
    timing: SystemTiming,
}

impl<S> SystemContainer<S> {
    /// The render-cadence group, in registration order.
    pub closed spec fn render_group(self) -> Seq<S> {
        self.render_systems@
    }

    /// The fixed-cadence group, in registration order.
    pub closed spec fn fixed_group(self) -> Seq<S> {
        self.fixed_update_systems@
    }

    /// The scheduler's timing state.
    pub closed spec fn timing(self) -> SystemTiming {
        self.timing
    }

    /// An empty container with the default fixed interval.
    pub fn new() -> (container: SystemContainer<S>)
        ensures
            container.render_group() == Seq::<S>::empty(),
            container.fixed_group() == Seq::<S>::empty(),
            container.timing().wf(),
            container.timing().accumulated() == 0,
            container.timing().interval() == FIXED_UPDATE_INTERVAL_MICROS,
    {
        SystemContainer {
            render_systems: Vec::new(),
            fixed_update_systems: Vec::new(),
            timing: SystemTiming::default(),
        }
    }

    /// An empty container with a caller-chosen fixed interval.
    pub fn with_interval(interval_micros: u64) -> (container: SystemContainer<S>)
        requires
            interval_micros >= 1,
        ensures
            container.render_group() == Seq::<S>::empty(),
            container.fixed_group() == Seq::<S>::empty(),
            container.timing().wf(),
            container.timing().accumulated() == 0,
            container.timing().interval() == interval_micros,
    {
        SystemContainer {
            render_systems: Vec::new(),
            fixed_update_systems: Vec::new(),
            timing: SystemTiming::with_interval(interval_micros),
        }
    }

    /// Register a system at the end of the render-cadence group.
    pub fn add_render_system(&mut self, system: S)
        ensures
            final(self).render_group() == old(self).render_group().push(system),
            final(self).fixed_group() == old(self).fixed_group(),
            final(self).timing() == old(self).timing(),
    {
        self.render_systems.push(system);
    }

    /// Register a system at the end of the fixed-cadence group.
    pub fn add_update_system(&mut self, system: S)
        ensures
            final(self).fixed_group() == old(self).fixed_group().push(system),
            final(self).render_group() == old(self).render_group(),
            final(self).timing() == old(self).timing(),
    {
        self.fixed_update_systems.push(system);
    }

    /// The render-cadence group, in registration order.
    pub fn get_render_systems(&self) -> (systems: &Vec<S>)
        ensures
            systems@ == self.render_group(),
    {
        &self.render_systems
    }

    /// The fixed-cadence group, in registration order.
    pub fn get_update_systems(&self) -> (systems: &Vec<S>)
        ensures
            systems@ == self.fixed_group(),
    {
        &self.fixed_update_systems
    }

    /// Feed one frame delta into the accumulator and consume every whole
    /// fixed interval from it.  Returns how many fixed ticks the caller owes
    /// this frame; the remainder stays accumulated.  A host driving the
    /// groups by hand runs every fixed-cadence system once per tick owed.
    pub fn should_update(&mut self, delta_micros: u64) -> (ticks: u64)
        requires
            old(self).timing().wf(),
            old(self).timing().accumulated() + delta_micros <= u64::MAX,
        ensures
            final(self).timing().interval() == old(self).timing().interval(),
            final(self).render_group() == old(self).render_group(),
            final(self).fixed_group() == old(self).fixed_group(),
            ticks == (old(self).timing().accumulated() + delta_micros) as int
                / old(self).timing().interval() as int,
            final(self).timing().accumulated()
                == (old(self).timing().accumulated() + delta_micros) as int
                    % old(self).timing().interval() as int,
    {
        let total = self.timing.accumulated_micros + delta_micros;
        let ticks = total / self.timing.interval_micros;
        self.timing.accumulated_micros = total % self.timing.interval_micros;
        ticks
    }

    /// The unconsumed time carried to the next frame, in microseconds.
    pub fn accumulated_time(&self) -> (accumulated: u64)
        ensures
            accumulated == self.timing().accumulated(),
    {
        self.timing.accumulated_micros
    }

    /// The delta time every fixed-cadence system is run with.
    pub fn get_fixed_delta_time(&self) -> (interval: u64)
        ensures
            interval == self.timing().interval(),
    {
        self.timing.interval_micros
    }

    /// Drive one frame.  The frame delta is added to the accumulator; while
    /// the accumulator holds a whole fixed interval, every fixed-cadence
    /// system runs once with the fixed interval as its delta, in
    /// registration order; afterwards every render-cadence system runs once
    /// with the actual frame delta.  Returns how many fixed ticks ran: the
    /// quotient of the accumulated time by the interval, the remainder
    /// staying accumulated.  The final world is exactly that schedule folded
    /// over the systems' step functions.
    pub fn run_frame<V>(&mut self, world: &mut World<V>, frame_delta_micros: u64) -> (ticks: u64)
        where S: System<V>
        requires
            old(self).timing().wf(),
            old(self).timing().accumulated() + frame_delta_micros <= u64::MAX,
            old(world).inv(),
        ensures
            final(self).timing().interval() == old(self).timing().interval(),
            final(self).render_group() == old(self).render_group(),
            final(self).fixed_group() == old(self).fixed_group(),
            ticks == (old(self).timing().accumulated() + frame_delta_micros) as int
                / old(self).timing().interval() as int,
            final(self).timing().accumulated()
                == (old(self).timing().accumulated() + frame_delta_micros) as int
                    % old(self).timing().interval() as int,
            final(world).inv(),
            final(world)@ == run_frame_t(
                old(world)@,
                old(self).fixed_group(),
                old(self).render_group(),
                old(self).timing().interval(),
                ticks as nat,
                frame_delta_micros,
            ),
    {
        let ghost total = old(self).timing().accumulated() + frame_delta_micros;
        let ghost interval = old(self).timing().interval();
        self.timing.accumulated_micros = self.timing.accumulated_micros + frame_delta_micros;
        let mut ticks: u64 = 0;
        while self.timing.accumulated_micros >= self.timing.interval_micros
            invariant
                self.timing().wf(),
                self.timing().interval() == interval,
                self.render_group() == old(self).render_group(),
                self.fixed_group() == old(self).fixed_group(),
                self.timing().accumulated() + ticks * interval == total,
                total <= u64::MAX,
                world.inv(),
                world@ == run_ticks_t(old(world)@, old(self).fixed_group(), interval, ticks as nat),
            decreases self.timing.accumulated_micros,
        {
            let ghost tick_start = world@;
            let fixed_delta = self.timing.interval_micros;
            let n = self.fixed_update_systems.len();
            for i in 0..n
                invariant
                    n == self.fixed_group().len(),
                    world.inv(),
                    self.timing().wf(),
                    self.timing().interval() == interval,
                    self.timing().accumulated() + ticks * interval == total,
                    self.render_group() == old(self).render_group(),
                    self.fixed_group() == old(self).fixed_group(),
                    fixed_delta == interval,
                    world@ == run_group_t(
                        tick_start,
                        self.fixed_group().subrange(0, i as int),
                        fixed_delta,
                    ),
            {
                let ghost before_step = world@;
                self.fixed_update_systems[i].update(world, fixed_delta);
                proof {
                    assert(self.fixed_group().subrange(0, i + 1)
                        =~= self.fixed_group().subrange(0, i as int).push(
                        self.fixed_group()[i as int],
                    ));
                    lemma_run_group_push(
                        tick_start,
                        self.fixed_group().subrange(0, i as int),
                        self.fixed_group()[i as int],
                        fixed_delta,
                    );
                }
            }
            proof {
                assert(self.fixed_group().subrange(0, n as int) =~= self.fixed_group());
                lemma_run_ticks_snoc(
                    old(world)@,
                    old(self).fixed_group(),
                    interval,
                    ticks as nat,
                );
                lemma_mul_inequality(1, interval as int, ticks as int);
                assert((interval as int) * (ticks as int) == (ticks as int) * (interval as int))
                    by (nonlinear_arith);
                assert(ticks as int <= (ticks as int) * (interval as int));
                assert(self.timing().accumulated() >= 1);
                assert(ticks < u64::MAX);
                assert((ticks as int + 1) * (interval as int)
                    == ticks * (interval as int) + interval) by (nonlinear_arith);
            }
            self.timing.accumulated_micros =
                self.timing.accumulated_micros - self.timing.interval_micros;
            ticks = ticks + 1;
        }
        let ghost after_ticks = world@;
        let m = self.render_systems.len();
        for i in 0..m
            invariant
                m == self.render_group().len(),
                world.inv(),
                self.timing().wf(),
                self.timing().interval() == interval,
                self.timing().accumulated() + ticks * interval == total,
                self.timing().accumulated() < interval,
                self.render_group() == old(self).render_group(),
                self.fixed_group() == old(self).fixed_group(),
                world@ == run_group_t(
                    after_ticks,
                    self.render_group().subrange(0, i as int),
                    frame_delta_micros,
                ),
                after_ticks == run_ticks_t(
                    old(world)@,
                    old(self).fixed_group(),
                    interval,
                    ticks as nat,
                ),
        {
            self.render_systems[i].update(world, frame_delta_micros);
            proof {
                assert(self.render_group().subrange(0, i + 1)
                    =~= self.render_group().subrange(0, i as int).push(
                    self.render_group()[i as int],
                ));
                lemma_run_group_push(
                    after_ticks,
                    self.render_group().subrange(0, i as int),
                    self.render_group()[i as int],
                    frame_delta_micros,
                );
            }
        }
        proof {
            assert(self.render_group().subrange(0, m as int) =~= self.render_group());
            lemma_fundamental_div_mod_converse(
                total as int,
                interval as int,
                ticks as int,
                self.timing().accumulated() as int,
            );
        }
        ticks
    }
}

/// Running one more tick is running the ticks so far, then the group once
/// more.
proof fn lemma_run_ticks_snoc<V, S: System<V>>(
    m: WorldModel<V>,
    group: Seq<S>,
    interval_micros: u64,
    ticks: nat,
)
    ensures
        run_ticks_t(m, group, interval_micros, ticks + 1)
            == run_group_t(run_ticks_t(m, group, interval_micros, ticks), group, interval_micros),
    decreases ticks,
{
    assert(run_ticks_t(m, group, interval_micros, ticks + 1)
        == run_ticks_t(run_group_t(m, group, interval_micros), group, interval_micros, ticks));
    if ticks == 0 {
        assert(run_ticks_t(run_group_t(m, group, interval_micros), group, interval_micros, 0)
            == run_group_t(m, group, interval_micros));
    } else {
        lemma_run_ticks_snoc(
            run_group_t(m, group, interval_micros),
            group,
            interval_micros,
            (ticks - 1) as nat,
        );
        assert(run_ticks_t(m, group, interval_micros, ticks)
            == run_ticks_t(
            run_group_t(m, group, interval_micros),
            group,
            interval_micros,
            (ticks - 1) as nat,
        ));
    }
}

} // verus!
