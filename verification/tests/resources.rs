use pixels_engine::ecs::AccessError;
use pixels_engine::ecs::World;

#[derive(Debug, PartialEq)]
struct FpsResource(pub u32);

const FPS: u64 = 10;

fn initialize_world() -> World<FpsResource> {
    let mut world = World::new();
    world.add_resource(FPS, FpsResource(30)).unwrap();
    world
}

#[test]
fn create_and_get_resource_immutably() {
    let mut world = initialize_world();
    let fps = world.get_resource(FPS).unwrap();
    assert_eq!(world.read_resource(&fps).0, 30);
    world.release_resource(fps);
}

#[test]
fn create_and_get_resource_mutably() {
    let mut world = initialize_world();

    // Modify the FPS
    {
        let fps = world.get_resource_mut(FPS).unwrap();
        world.write_resource(&fps, FpsResource(60));
        world.release_resource(fps);
    }

    // Verify the modification
    let fps = world.get_resource(FPS).unwrap();
    assert_eq!(world.read_resource(&fps).0, 60);
    world.release_resource(fps);
}

#[test]
fn remove_existing_resource() {
    let mut world: World<FpsResource> = World::new();
    world.add_resource(FPS, FpsResource(30)).unwrap();

    // Verify resource exists
    let guard = world.get_resource(FPS);
    assert!(guard.is_ok());
    world.release_resource(guard.unwrap());

    // Remove the resource
    let removed_fps = world.remove_resource(FPS).unwrap();
    assert_eq!(removed_fps.0, 30);

    // Verify resource is gone
    assert!(world.get_resource(FPS).is_err());
}

#[test]
fn remove_nonexistent_resource() {
    let mut world: World<FpsResource> = World::new();
    assert!(world.remove_resource(FPS).is_err());
}

#[test]
fn remove_and_read_resource() {
    let mut world: World<FpsResource> = World::new();
    world.add_resource(FPS, FpsResource(30)).unwrap();

    // Remove the resource
    let removed_fps = world.remove_resource(FPS).unwrap();
    assert_eq!(removed_fps.0, 30);

    // Add a new resource of the same type
    world.add_resource(FPS, FpsResource(60)).unwrap();

    // Verify new resource
    let fps = world.get_resource(FPS).unwrap();
    assert_eq!(world.read_resource(&fps).0, 60);
    world.release_resource(fps);
}

#[test]
fn add_resource_overwrites() {
    let mut world: World<FpsResource> = World::new();
    world.add_resource(FPS, FpsResource(30)).unwrap();
    world.add_resource(FPS, FpsResource(60)).unwrap();
    let fps = world.get_resource(FPS).unwrap();
    assert_eq!(world.read_resource(&fps).0, 60);
    world.release_resource(fps);
}

#[test]
fn resource_guard_conflicts() {
    let mut world: World<FpsResource> = World::new();
    world.add_resource(FPS, FpsResource(30)).unwrap();

    // Two concurrent shared guards succeed.
    let s1 = world.get_resource(FPS).unwrap();
    let s2 = world.get_resource(FPS).unwrap();
    assert_eq!(world.read_resource(&s1).0, 30);
    assert_eq!(world.read_resource(&s2).0, 30);

    // Exclusive access, replacement and removal fault while they stand.
    assert_eq!(world.get_resource_mut(FPS), Err(AccessError::Conflict));
    assert_eq!(world.add_resource(FPS, FpsResource(1)), Err(AccessError::Conflict));
    assert_eq!(world.remove_resource(FPS), Err(AccessError::Conflict));

    world.release_resource(s1);
    world.release_resource(s2);

    // With every guard back, exclusive access is granted again.
    let e = world.get_resource_mut(FPS).unwrap();
    assert_eq!(world.get_resource(FPS), Err(AccessError::Conflict));
    world.release_resource(e);
}

#[test]
fn get_missing_resource_is_absent() {
    let mut world: World<FpsResource> = World::new();
    assert_eq!(world.get_resource(FPS), Err(AccessError::Absent));
    assert_eq!(world.get_resource_mut(FPS), Err(AccessError::Absent));
    assert_eq!(world.remove_resource(FPS), Err(AccessError::Absent));
}
