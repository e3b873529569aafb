use pixels_engine::ecs::AccessError;
use pixels_engine::ecs::World;

#[derive(Debug, PartialEq)]
struct Position(f32, f32);

#[derive(Debug, PartialEq)]
struct Velocity(f32, f32);

#[derive(Debug, PartialEq)]
enum Component {
    Position(Position),
    Velocity(Velocity),
}

const POSITION: u64 = 1;
const VELOCITY: u64 = 2;

#[test]
fn test_multiple_entities() {
    let mut world: World<Position> = World::new();

    // Create first entity
    let e1 = world.new_entity().unwrap();
    world.add_component_to_entity(e1, POSITION, Position(0.0, 0.0)).unwrap();

    // Create second entity
    let e2 = world.new_entity().unwrap();
    world.add_component_to_entity(e2, POSITION, Position(1.0, 1.0)).unwrap();

    // Verify both entities have components
    let positions = world.borrow_components_mut(POSITION).unwrap();
    assert_eq!(world.column_len(&positions), 2);
    assert_eq!(world.read_component(&positions, 0), &Some(Position(0.0, 0.0)));
    assert_eq!(world.read_component(&positions, 1), &Some(Position(1.0, 1.0)));
}

#[test]
fn test_multiple_component_types() {
    let mut world: World<Component> = World::new();

    // Create entity with multiple components
    let e1 = world.new_entity().unwrap();
    world
        .add_component_to_entity(e1, POSITION, Component::Position(Position(0.0, 0.0)))
        .unwrap();
    world
        .add_component_to_entity(e1, VELOCITY, Component::Velocity(Velocity(1.0, 1.0)))
        .unwrap();

    // Create second entity with just position
    let e2 = world.new_entity().unwrap();
    world
        .add_component_to_entity(e2, POSITION, Component::Position(Position(2.0, 2.0)))
        .unwrap();

    // Verify components
    let positions = world.borrow_components_mut(POSITION).unwrap();
    let velocities = world.borrow_components_mut(VELOCITY).unwrap();

    assert_eq!(world.column_len(&positions), 2);
    assert_eq!(world.column_len(&velocities), 2);

    assert_eq!(
        world.read_component(&positions, 0),
        &Some(Component::Position(Position(0.0, 0.0)))
    );
    assert_eq!(
        world.read_component(&positions, 1),
        &Some(Component::Position(Position(2.0, 2.0)))
    );
    assert_eq!(
        world.read_component(&velocities, 0),
        &Some(Component::Velocity(Velocity(1.0, 1.0)))
    );
    assert_eq!(world.read_component(&velocities, 1), &None);
}

#[test]
fn index_alignment_across_columns() {
    let mut world: World<u32> = World::new();
    let e0 = world.new_entity().unwrap();
    let e1 = world.new_entity().unwrap();
    world.add_component_to_entity(e0, POSITION, 7).unwrap();
    world.add_component_to_entity(e1, VELOCITY, 9).unwrap();

    let a = world.borrow_components(POSITION).unwrap();
    let b = world.borrow_components(VELOCITY).unwrap();
    assert_eq!(world.read_component(&a, 0), &Some(7));
    assert_eq!(world.read_component(&a, 1), &None);
    assert_eq!(world.read_component(&b, 0), &None);
    assert_eq!(world.read_component(&b, 1), &Some(9));
}

#[test]
fn column_growth_after_each_operation() {
    let mut world: World<u32> = World::new();
    let e0 = world.new_entity().unwrap();
    world.add_component_to_entity(e0, POSITION, 1).unwrap();
    // A later entity extends the existing column with an absent slot.
    let e1 = world.new_entity().unwrap();
    let g = world.borrow_components(POSITION).unwrap();
    assert_eq!(world.column_len(&g), 2);
    assert_eq!(world.read_component(&g, e1), &None);
    world.release_column(g);

    // A column created late is back-filled for both entities.
    world.add_component_to_entity(e0, VELOCITY, 5).unwrap();
    let g = world.borrow_components(VELOCITY).unwrap();
    assert_eq!(world.column_len(&g), 2);
    assert_eq!(world.read_component(&g, 0), &Some(5));
    assert_eq!(world.read_component(&g, 1), &None);
}

#[test]
fn exclusive_guard_conflicts() {
    let mut world: World<u32> = World::new();
    let e0 = world.new_entity().unwrap();
    world.add_component_to_entity(e0, POSITION, 3).unwrap();

    // Two concurrent shared guards succeed.
    let s1 = world.borrow_components(POSITION).unwrap();
    let s2 = world.borrow_components(POSITION).unwrap();
    assert_eq!(world.read_component(&s1, 0), &Some(3));
    assert_eq!(world.read_component(&s2, 0), &Some(3));

    // An exclusive guard while shared guards are outstanding faults.
    assert_eq!(world.borrow_components_mut(POSITION), Err(AccessError::Conflict));

    world.release_column(s1);
    assert_eq!(world.borrow_components_mut(POSITION), Err(AccessError::Conflict));
    world.release_column(s2);

    // With every guard released the exclusive guard is granted again.
    let e = world.borrow_components_mut(POSITION).unwrap();
    world.write_component(&e, 0, 4);
    assert_eq!(world.read_component(&e, 0), &Some(4));

    // Any guard while an exclusive guard is outstanding faults.
    assert_eq!(world.borrow_components(POSITION), Err(AccessError::Conflict));
    assert_eq!(world.borrow_components_mut(POSITION), Err(AccessError::Conflict));
    world.release_column(e);
}

#[test]
fn attach_to_missing_entity_faults() {
    let mut world: World<u32> = World::new();
    assert_eq!(
        world.add_component_to_entity(0, POSITION, 1),
        Err(AccessError::NoSuchEntity)
    );
    let e0 = world.new_entity().unwrap();
    assert_eq!(
        world.add_component_to_entity(e0 + 1, POSITION, 1),
        Err(AccessError::NoSuchEntity)
    );
}

#[test]
fn borrow_of_missing_column_is_absent() {
    let mut world: World<u32> = World::new();
    world.new_entity().unwrap();
    assert_eq!(world.borrow_components(POSITION), Err(AccessError::Absent));
    assert_eq!(world.borrow_components_mut(POSITION), Err(AccessError::Absent));
}

#[test]
fn table_mutation_under_guard_faults() {
    let mut world: World<u32> = World::new();
    let e0 = world.new_entity().unwrap();
    world.add_component_to_entity(e0, POSITION, 1).unwrap();
    let g = world.borrow_components(POSITION).unwrap();

    // Creating an entity would resize the guarded column.
    assert_eq!(world.new_entity(), Err(AccessError::Conflict));
    // Attaching through the table bypasses the guard discipline.
    assert_eq!(
        world.add_component_to_entity(e0, POSITION, 2),
        Err(AccessError::Conflict)
    );

    world.release_column(g);
    assert_eq!(world.new_entity(), Ok(1));
}

#[test]
fn attach_overwrites_slot() {
    let mut world: World<u32> = World::new();
    let e0 = world.new_entity().unwrap();
    world.add_component_to_entity(e0, POSITION, 1).unwrap();
    world.add_component_to_entity(e0, POSITION, 2).unwrap();
    let g = world.borrow_components(POSITION).unwrap();
    assert_eq!(world.read_component(&g, 0), &Some(2));
    world.release_column(g);
}

#[test]
fn positional_pairing_scenario() {
    // Two entities; both have a position, only the first has a velocity.
    let mut world: World<Component> = World::new();
    let e0 = world.new_entity().unwrap();
    let e1 = world.new_entity().unwrap();
    world
        .add_component_to_entity(e0, POSITION, Component::Position(Position(0.0, 0.0)))
        .unwrap();
    world
        .add_component_to_entity(e1, POSITION, Component::Position(Position(1.0, 1.0)))
        .unwrap();
    world
        .add_component_to_entity(e0, VELOCITY, Component::Velocity(Velocity(1.0, 1.0)))
        .unwrap();

    let positions = world.borrow_components(POSITION).unwrap();
    assert_eq!(world.column_len(&positions), 2);
    assert_eq!(
        world.read_component(&positions, 0),
        &Some(Component::Position(Position(0.0, 0.0)))
    );
    assert_eq!(
        world.read_component(&positions, 1),
        &Some(Component::Position(Position(1.0, 1.0)))
    );
    world.release_column(positions);

    let velocities = world.borrow_components(VELOCITY).unwrap();
    assert_eq!(world.column_len(&velocities), 2);
    assert_eq!(
        world.read_component(&velocities, 0),
        &Some(Component::Velocity(Velocity(1.0, 1.0)))
    );
    assert_eq!(world.read_component(&velocities, 1), &None);
    world.release_column(velocities);
}
