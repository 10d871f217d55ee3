use std::any::TypeId;

use axle_ecs::entities::Entities;
use axle_ecs::query::QueryEntity;
use axle_ecs::resources::Resources;
use axle_ecs::{CustomErrors, World};

#[derive(Debug, Clone, Copy, PartialEq)]
struct Location(pub f32, pub f32);

#[derive(Debug, Clone, Copy, PartialEq)]
struct Speed(pub f32);

#[derive(Debug, Clone, Copy, PartialEq)]
enum Component {
    Location(Location),
    Speed(Speed),
}

type SystemFn =
    fn(&Vec<QueryEntity>, &mut Entities<Component>, &mut Resources<()>) -> Result<(), CustomErrors>;

type TestWorld = World<Component, (), SystemFn>;

fn location() -> TypeId {
    TypeId::of::<Location>()
}

fn speed() -> TypeId {
    TypeId::of::<Speed>()
}

fn as_location(c: &Component) -> Location {
    match c {
        Component::Location(l) => *l,
        _ => panic!("not a location"),
    }
}

fn as_speed(c: &Component) -> Speed {
    match c {
        Component::Speed(s) => *s,
        _ => panic!("not a speed"),
    }
}

#[test]
fn create_system() -> Result<(), CustomErrors> {
    let mut world = TestWorld::new();

    world.register_component(location());
    world.register_component(speed());

    world
        .create_system(update_location)
        .with_component(location())?
        .with_component(speed())?;

    Ok(())
}

#[test]
fn running_system() -> Result<(), CustomErrors> {
    let mut world = TestWorld::new();

    world.register_component(location());
    world.register_component(speed());

    world
        .create_entity()
        .with_component(location(), Component::Location(Location(0.0, 10.0)))?
        .with_component(speed(), Component::Speed(Speed(10.0)))?;

    world
        .create_system(update_location)
        .with_component(location())?
        .with_component(speed())?;

    world.run_all_systems()?;

    let query = world.query().with_component(location())?.run();

    let locations = &query.1[0];
    let location = as_location(locations[0]);

    assert_eq!(location.0, 10.0);
    assert_eq!(location.1, 20.0);

    Ok(())
}

#[test]
fn delete_component_from_system() -> Result<(), CustomErrors> {
    let mut world = TestWorld::new();

    world.register_component(location());
    world.register_component(speed());

    world
        .create_entity()
        .with_component(location(), Component::Location(Location(0.0, 10.0)))?
        .with_component(speed(), Component::Speed(Speed(10.0)))?;

    world.create_entity().with_component(speed(), Component::Speed(Speed(20.0)))?;

    world
        .create_system(update_speed)
        .with_component(location())?
        .with_component(speed())?;

    world.delete_component_by_system_id(location(), 0)?;

    world.run_all_systems()?;

    let query = world.query().with_component(speed())?.run();

    let speeds = &query.1[0];

    let first_speed = as_speed(speeds[0]);
    assert_eq!(first_speed.0, 20.0);

    let second_speed = as_speed(speeds[1]);
    assert_eq!(second_speed.0, 30.0);

    Ok(())
}

#[test]
fn add_component_to_system() -> Result<(), CustomErrors> {
    let mut world = TestWorld::new();

    world.register_component(location());
    world.register_component(speed());

    world
        .create_entity()
        .with_component(location(), Component::Location(Location(0.0, 10.0)))?
        .with_component(speed(), Component::Speed(Speed(10.0)))?;

    world.create_entity().with_component(location(), Component::Location(Location(10.0, 10.0)))?;

    world.create_system(update_location);

    world.add_component_to_system_by_id(location(), 0)?;
    world.add_component_to_system_by_id(speed(), 0)?;

    world.run_all_systems()?;

    let query = world.query().with_component(location())?.run();

    let locations = &query.1[0];

    let first_location = as_location(locations[0]);
    assert_eq!(first_location.0, 10.0);
    assert_eq!(first_location.1, 20.0);

    let second_location = as_location(locations[1]);
    assert_eq!(second_location.0, 10.0);
    assert_eq!(second_location.1, 10.0);

    Ok(())
}

#[test]
fn delete_a_system() -> Result<(), CustomErrors> {
    let mut world = TestWorld::new();

    world.register_component(location());
    world.register_component(speed());

    world
        .create_entity()
        .with_component(location(), Component::Location(Location(0.0, 10.0)))?
        .with_component(speed(), Component::Speed(Speed(10.0)))?;

    world.create_entity().with_component(speed(), Component::Speed(Speed(20.0)))?;

    world.create_system(update_speed).with_component(speed())?;

    world.delete_system_by_id(0)?;
    world.run_all_systems()?;

    let query = world.query().with_component(speed())?.run();

    let speeds = &query.1[0];

    let first_speed = as_speed(speeds[0]);
    assert_eq!(first_speed.0, 10.0);

    let second_speed = as_speed(speeds[1]);
    assert_eq!(second_speed.0, 20.0);

    Ok(())
}

#[test]
fn more_systems_at_the_same_time() -> Result<(), CustomErrors> {
    let mut world = TestWorld::new();

    world.register_component(location());
    world.register_component(speed());

    world
        .create_entity()
        .with_component(location(), Component::Location(Location(0.0, 0.0)))?
        .with_component(speed(), Component::Speed(Speed(10.0)))?;

    world.create_entity().with_component(speed(), Component::Speed(Speed(20.0)))?;

    world.create_entity().with_component(location(), Component::Location(Location(20.0, 20.0)))?;

    world
        .create_entity()
        .with_component(location(), Component::Location(Location(10.0, 10.0)))?
        .with_component(speed(), Component::Speed(Speed(5.0)))?;

    world.create_system(update_speed).with_component(speed())?;

    world
        .create_system(update_location)
        .with_component(location())?
        .with_component(speed())?;

    world.run_all_systems()?;

    let query = world.query().with_component(speed())?.run();

    let speeds = &query.1[0];

    let first_speed = as_speed(speeds[0]);
    assert_eq!(first_speed.0, 20.0);

    let second_speed = as_speed(speeds[1]);
    assert_eq!(second_speed.0, 30.0);

    let third_speed = as_speed(speeds[2]);
    assert_eq!(third_speed.0, 15.0);

    let query = world.query().with_component(location())?.run();

    let locations = &query.1[0];

    let first_location = as_location(locations[0]);
    assert_eq!(first_location.0, 20.0);
    assert_eq!(first_location.1, 20.0);

    let second_location = as_location(locations[1]);
    assert_eq!(second_location.0, 20.0);
    assert_eq!(second_location.1, 20.0);

    let third_location = as_location(locations[2]);
    assert_eq!(third_location.0, 25.0);
    assert_eq!(third_location.1, 25.0);

    Ok(())
}

fn update_location(
    entities: &Vec<QueryEntity>,
    store: &mut Entities<Component>,
    _resources: &mut Resources<()>,
) -> Result<(), CustomErrors> {
    for entity in entities {
        let speed = as_speed(entity.get_component(store, speed())?).0;
        match entity.get_component_mut(store, location())? {
            Component::Location(location) => {
                location.0 += speed;
                location.1 += speed;
            }
            _ => return Err(CustomErrors::DowncastToWrongType),
        }
    }

    Ok(())
}

fn update_speed(
    entities: &Vec<QueryEntity>,
    store: &mut Entities<Component>,
    _resources: &mut Resources<()>,
) -> Result<(), CustomErrors> {
    for entity in entities {
        match entity.get_component_mut(store, speed())? {
            Component::Speed(speed) => speed.0 += 10.0,
            _ => return Err(CustomErrors::DowncastToWrongType),
        }
    }

    Ok(())
}
