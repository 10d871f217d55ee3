use std::any::TypeId;

use axle_ecs::entities::Entities;
use axle_ecs::query::QueryEntity;
use axle_ecs::CustomErrors;

#[derive(Debug, Clone, Copy, PartialEq)]
struct Health(pub u32);

#[derive(Debug, Clone, Copy, PartialEq)]
struct Speed(pub u32);

#[derive(Debug, Clone, Copy, PartialEq)]
enum Component {
    Health(Health),
    Speed(Speed),
    U32(u32),
    F32(f32),
}

fn health() -> TypeId {
    TypeId::of::<Health>()
}

fn speed() -> TypeId {
    TypeId::of::<Speed>()
}

fn health_of(entities: &Entities<Component>, id: usize) -> u32 {
    match QueryEntity::new(id).get_component(entities, health()).unwrap() {
        Component::Health(h) => h.0,
        _ => panic!("not a health"),
    }
}

#[test]
fn register_an_entity() {
    let mut entities: Entities<Component> = Entities::default();
    entities.register_component(health());

    assert_eq!(entities.entity_count(), 0);
    assert_eq!(entities.get_bitmask(&health()), Some(1));
}

#[test]
fn bitmask_updated_when_registering_entities() {
    let mut entities: Entities<Component> = Entities::default();

    entities.register_component(health());
    assert_eq!(entities.get_bitmask(&health()), Some(1));

    entities.register_component(speed());
    assert_eq!(entities.get_bitmask(&speed()), Some(2));
}

#[test]
fn create_entity() {
    let mut entities: Entities<Component> = Entities::default();
    entities.register_component(health());
    entities.register_component(speed());
    entities.create_entity();

    assert_eq!(entities.entity_count(), 1);
    let entity = QueryEntity::new(0);
    assert_eq!(entity.get_component(&entities, health()), Err(CustomErrors::ComponentDataDoesNotExist));
    assert_eq!(entity.get_component(&entities, speed()), Err(CustomErrors::ComponentDataDoesNotExist));
}

#[test]
fn with_component() -> Result<(), CustomErrors> {
    let mut entities: Entities<Component> = Entities::default();
    entities.register_component(health());
    entities.register_component(speed());
    entities
        .create_entity()
        .with_component(health(), Component::Health(Health(100)))?
        .with_component(speed(), Component::Speed(Speed(15)))?;

    assert_eq!(health_of(&entities, 0), 100);
    Ok(())
}

#[test]
fn map_is_updated_when_creating_entities() -> Result<(), CustomErrors> {
    let mut entities: Entities<Component> = Entities::default();
    entities.register_component(health());
    entities.register_component(speed());
    entities
        .create_entity()
        .with_component(health(), Component::Health(Health(100)))?
        .with_component(speed(), Component::Speed(Speed(15)))?;

    assert_eq!(entities.get_map(0), Some(3));

    entities.create_entity().with_component(speed(), Component::Speed(Speed(15)))?;

    assert_eq!(entities.get_map(1), Some(2));

    Ok(())
}

#[test]
fn delete_component_by_entity_id() -> Result<(), CustomErrors> {
    let mut entities: Entities<Component> = Entities::default();
    entities.register_component(health());
    entities.register_component(speed());

    entities
        .create_entity()
        .with_component(health(), Component::Health(Health(100)))?
        .with_component(speed(), Component::Speed(Speed(50)))?;

    entities.delete_component_by_entity_id(health(), 0)?;

    assert_eq!(entities.get_map(0), Some(2));

    Ok(())
}

#[test]
fn add_component_to_entity_by_id() -> Result<(), CustomErrors> {
    let mut entities: Entities<Component> = Entities::default();
    entities.register_component(health());
    entities.register_component(speed());

    entities.create_entity().with_component(health(), Component::Health(Health(100)))?;

    entities.add_component_by_entity_id(speed(), Component::Speed(Speed(50)), 0)?;

    assert_eq!(entities.get_map(0), Some(3));

    let speed = QueryEntity::new(0).get_component(&entities, speed())?;
    assert_eq!(*speed, Component::Speed(Speed(50)));

    Ok(())
}

#[test]
fn delete_entity_by_id() -> Result<(), CustomErrors> {
    let mut entities: Entities<Component> = Entities::default();
    entities.register_component(health());

    entities.create_entity().with_component(health(), Component::Health(Health(100)))?;

    entities.delete_entity_by_id(0)?;

    assert_eq!(entities.get_map(0), Some(0));

    Ok(())
}

#[test]
fn created_entities_are_inserted_into_deleted_entities_columns() -> Result<(), CustomErrors> {
    let mut entities: Entities<Component> = Entities::default();
    entities.register_component(health());

    entities.create_entity().with_component(health(), Component::Health(Health(100)))?;
    entities.create_entity().with_component(health(), Component::Health(Health(50)))?;

    entities.delete_entity_by_id(0)?;

    entities.create_entity().with_component(health(), Component::Health(Health(25)))?;

    entities.create_entity().with_component(health(), Component::Health(Health(75)))?;

    assert_eq!(entities.get_map(0), Some(1));
    assert_eq!(health_of(&entities, 0), 25);
    assert_eq!(health_of(&entities, 2), 75);

    Ok(())
}

#[test]
fn should_not_add_component_back_after_deleting_twice() -> Result<(), CustomErrors> {
    let mut entities: Entities<Component> = Entities::default();
    entities.register_component(TypeId::of::<u32>());
    entities.register_component(TypeId::of::<f32>());

    entities
        .create_entity()
        .with_component(TypeId::of::<u32>(), Component::U32(100_u32))?
        .with_component(TypeId::of::<f32>(), Component::F32(50.0_f32))?;

    entities.delete_component_by_entity_id(TypeId::of::<u32>(), 0)?;
    entities.delete_component_by_entity_id(TypeId::of::<u32>(), 0)?;

    assert_eq!(entities.get_map(0), Some(2));

    Ok(())
}
