use pixels_engine::ecs::World;
use pixels_engine::ecs::WorldModel;
use pixels_engine::systems::System;
use pixels_engine::systems::SystemContainer;
use pixels_engine::systems::FIXED_UPDATE_INTERVAL_MICROS;

const COUNTER: u64 = 1;
const OBSERVED: u64 = 2;

enum TickSystem {
    /// Fixed cadence: adds one to the counter resource each step.
    Increment,
    /// Render cadence: copies the counter into the observed resource.
    Observe,
}

impl System<u64> for TickSystem {
    // The step specification is ghost: the verifier reasons about it, the
    // compiled program never calls it.
    fn step(&self, _m: WorldModel<u64>, _delta_micros: u64) -> WorldModel<u64> {
        unreachable!()
    }

    fn update(&self, world: &mut World<u64>, _delta_micros: u64) {
        match self {
            TickSystem::Increment => {
                let guard = world.get_resource_mut(COUNTER).unwrap();
                let value = *world.read_resource(&guard);
                world.write_resource(&guard, value + 1);
                world.release_resource(guard);
            }
            TickSystem::Observe => {
                let guard = world.get_resource(COUNTER).unwrap();
                let value = *world.read_resource(&guard);
                world.release_resource(guard);
                let guard = world.get_resource_mut(OBSERVED).unwrap();
                world.write_resource(&guard, value);
                world.release_resource(guard);
            }
        }
    }
}

fn read(world: &mut World<u64>, key: u64) -> u64 {
    let guard = world.get_resource(key).unwrap();
    let value = *world.read_resource(&guard);
    world.release_resource(guard);
    value
}

#[test]
fn fixed_tick_accumulator_scenario() {
    // Interval 20 ms; frame deltas of 45 ms, 5 ms and 20 ms must run
    // exactly 2, 0 and 1 fixed ticks with remainders 5, 10 and 10 ms.
    let mut world: World<u64> = World::new();
    world.add_resource(COUNTER, 0).unwrap();
    world.add_resource(OBSERVED, 0).unwrap();
    let mut container: SystemContainer<TickSystem> = SystemContainer::with_interval(20_000);
    container.add_update_system(TickSystem::Increment);

    assert_eq!(container.run_frame(&mut world, 45_000), 2);
    assert_eq!(container.accumulated_time(), 5_000);

    assert_eq!(container.run_frame(&mut world, 5_000), 0);
    assert_eq!(container.accumulated_time(), 10_000);

    assert_eq!(container.run_frame(&mut world, 20_000), 1);
    assert_eq!(container.accumulated_time(), 10_000);

    assert_eq!(read(&mut world, COUNTER), 3);
}

#[test]
fn fixed_and_render_cadence_frame() {
    // One 100 ms frame at a 20 ms interval runs the fixed system 5 times,
    // and the render system afterwards observes the final count.
    let mut world: World<u64> = World::new();
    world.add_resource(COUNTER, 0).unwrap();
    world.add_resource(OBSERVED, 0).unwrap();
    let mut container: SystemContainer<TickSystem> = SystemContainer::with_interval(20_000);
    container.add_update_system(TickSystem::Increment);
    container.add_render_system(TickSystem::Observe);

    let ticks = container.run_frame(&mut world, 100_000);
    assert_eq!(ticks, 5);
    assert_eq!(read(&mut world, COUNTER), 5);
    assert_eq!(read(&mut world, OBSERVED), 5);
}

#[test]
fn render_systems_run_every_frame() {
    let mut world: World<u64> = World::new();
    world.add_resource(COUNTER, 7).unwrap();
    world.add_resource(OBSERVED, 0).unwrap();
    let mut container: SystemContainer<TickSystem> = SystemContainer::with_interval(20_000);
    container.add_render_system(TickSystem::Observe);

    // No fixed tick elapses, yet the render system still observes.
    assert_eq!(container.run_frame(&mut world, 1_000), 0);
    assert_eq!(read(&mut world, OBSERVED), 7);
}

#[test]
fn should_update_consumes_every_whole_interval() {
    // The manual driving entry point owes the same tick counts as a frame:
    // 45, 5 and 20 ms at a 20 ms interval owe 2, 0 and 1 ticks with
    // 5, 10 and 10 ms left accumulated.
    let mut container: SystemContainer<TickSystem> = SystemContainer::with_interval(20_000);
    assert_eq!(container.should_update(45_000), 2);
    assert_eq!(container.accumulated_time(), 5_000);
    assert_eq!(container.should_update(5_000), 0);
    assert_eq!(container.accumulated_time(), 10_000);
    assert_eq!(container.should_update(20_000), 1);
    assert_eq!(container.accumulated_time(), 10_000);
    assert_eq!(container.get_fixed_delta_time(), 20_000);
}

#[test]
fn default_interval_is_a_thirtieth_of_a_second() {
    let container: SystemContainer<TickSystem> = SystemContainer::new();
    assert_eq!(container.get_fixed_delta_time(), FIXED_UPDATE_INTERVAL_MICROS);
    assert_eq!(container.accumulated_time(), 0);
    assert_eq!(FIXED_UPDATE_INTERVAL_MICROS, 33_333);
}

#[test]
fn registration_order_is_kept() {
    let mut container: SystemContainer<u32> = SystemContainer::new();
    container.add_update_system(1);
    container.add_update_system(2);
    container.add_render_system(3);
    assert_eq!(container.get_update_systems(), &vec![1, 2]);
    assert_eq!(container.get_render_systems(), &vec![3]);
}
