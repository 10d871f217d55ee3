use std::any::TypeId;

use axle_ecs::entities::Entities;
use axle_ecs::query::{Query, QueryEntity};
use axle_ecs::resources::Resources;
use axle_ecs::systems::Systems;
use axle_ecs::CustomErrors;

#[derive(Debug, Clone, Copy, PartialEq)]
struct Health(pub u32);

#[derive(Debug, Clone, Copy, PartialEq)]
struct Speed(pub u32);

#[derive(Debug, Clone, Copy, PartialEq)]
struct Score(pub u32);

#[derive(Debug, Clone, Copy, PartialEq)]
enum Component {
    Health(Health),
    Speed(Speed),
}

type SystemFn =
    fn(&Vec<QueryEntity>, &mut Entities<Component>, &mut Resources<Score>) -> Result<(), CustomErrors>;

fn health() -> TypeId {
    TypeId::of::<Health>()
}

fn speed() -> TypeId {
    TypeId::of::<Speed>()
}

fn score() -> TypeId {
    TypeId::of::<Score>()
}

fn healths(entities: &Entities<Component>) -> Vec<u32> {
    let mut query = Query::new(entities);
    let result = query.with_component(health()).unwrap().run();
    result.1[0]
        .iter()
        .map(|c| match c {
            Component::Health(h) => h.0,
            _ => panic!("not a health"),
        })
        .collect()
}

fn speeds(entities: &Entities<Component>) -> Vec<u32> {
    let mut query = Query::new(entities);
    let result = query.with_component(speed()).unwrap().run();
    result.1[0]
        .iter()
        .map(|c| match c {
            Component::Speed(s) => s.0,
            _ => panic!("not a speed"),
        })
        .collect()
}

#[test]
fn systems_create_system() {
    let mut systems: Systems<SystemFn> = Systems::default();
    systems.create_system(damage_health);

    assert_eq!(systems.system_count(), 1);
    assert!(systems.components_of(0).is_some());
    assert!(systems.components_of(1).is_none());
}

#[test]
fn create_system_with_components() -> Result<(), CustomErrors> {
    let mut systems: Systems<SystemFn> = Systems::default();
    systems
        .create_system(damage_health)
        .with_component(health())?
        .with_component(speed())?;

    assert_eq!(systems.system_count(), 1);
    let components = systems.components_of(0).unwrap();
    assert_eq!(components.len(), 2);
    assert_eq!(components[0], TypeId::of::<Health>());
    assert_eq!(components[1], TypeId::of::<Speed>());

    Ok(())
}

#[test]
fn create_system_with_resources() -> Result<(), CustomErrors> {
    let mut systems: Systems<SystemFn> = Systems::default();

    systems
        .create_system(damage_health)
        .with_component(health())?
        .with_component(speed())?
        .with_resource(score())?;

    let resources = systems.resources_of(0).unwrap();
    assert_eq!(resources.len(), 1);
    assert_eq!(resources[0], TypeId::of::<Score>());

    Ok(())
}

#[test]
fn excecute_system_on_entity() -> Result<(), CustomErrors> {
    let mut entities: Entities<Component> = Entities::default();
    let mut resources: Resources<Score> = Resources::default();

    entities.register_component(health());
    entities.register_component(speed());

    let mut systems: Systems<SystemFn> = Systems::default();
    systems.create_system(damage_health).with_component(health())?;

    entities
        .create_entity()
        .with_component(health(), Component::Health(Health(100)))?
        .with_component(speed(), Component::Speed(Speed(100)))?;

    systems.run_all(&mut entities, &mut resources)?;

    assert_eq!(healths(&entities)[0], 90_u32);

    Ok(())
}

#[test]
fn excecute_multiples_systems_on_entities() -> Result<(), CustomErrors> {
    let mut entities: Entities<Component> = Entities::default();
    let mut resources: Resources<Score> = Resources::default();

    entities.register_component(health());
    entities.register_component(speed());

    let mut systems: Systems<SystemFn> = Systems::default();
    systems.create_system(damage_health).with_component(health())?;

    systems.create_system(increase_speed).with_component(speed())?;

    entities
        .create_entity()
        .with_component(health(), Component::Health(Health(100)))?
        .with_component(speed(), Component::Speed(Speed(0)))?;

    entities.create_entity().with_component(speed(), Component::Speed(Speed(10)))?;

    entities.create_entity().with_component(health(), Component::Health(Health(200)))?;

    entities.create_entity().with_component(health(), Component::Health(Health(300)))?;

    systems.run_all(&mut entities, &mut resources)?;

    let healths = healths(&entities);
    assert_eq!(healths[0], 90_u32);
    assert_eq!(healths[1], 190_u32);
    assert_eq!(healths[2], 290_u32);

    let speeds = speeds(&entities);
    assert_eq!(speeds[0], 10_u32);
    assert_eq!(speeds[1], 20_u32);

    Ok(())
}

#[test]
fn delete_component_by_system_id() -> Result<(), CustomErrors> {
    let mut systems: Systems<SystemFn> = Systems::default();
    systems
        .create_system(damage_health)
        .with_component(speed())?
        .with_component(health())?;

    systems.delete_component_by_system_id(speed(), 0)?;

    let components = systems.components_of(0).unwrap();
    assert_eq!(components.len(), 1);
    assert_eq!(components[0], TypeId::of::<Health>());

    Ok(())
}

#[test]
fn delete_resource_by_system_id() -> Result<(), CustomErrors> {
    let mut systems: Systems<SystemFn> = Systems::default();
    systems
        .create_system(damage_health)
        .with_component(health())?
        .with_resource(score())?
        .with_resource(speed())?;

    systems.delete_resource_by_system_id(score(), 0)?;

    let resources = systems.resources_of(0).unwrap();
    assert_eq!(resources.len(), 1);
    assert_eq!(resources[0], TypeId::of::<Speed>());

    Ok(())
}

#[test]
fn add_component_by_entity_id() -> Result<(), CustomErrors> {
    let mut systems: Systems<SystemFn> = Systems::default();
    systems.create_system(damage_health).with_component(health())?;

    systems.add_component_by_system_id(speed(), 0)?;

    let components = systems.components_of(0).unwrap();
    assert_eq!(components.len(), 2);
    assert_eq!(components[0], TypeId::of::<Health>());
    assert_eq!(components[1], TypeId::of::<Speed>());

    Ok(())
}

#[test]
fn add_resource_by_entity_id() -> Result<(), CustomErrors> {
    let mut systems: Systems<SystemFn> = Systems::default();
    systems
        .create_system(damage_health)
        .with_component(health())?
        .with_resource(score())?;

    systems.add_resource_by_system_id(speed(), 0)?;

    let resources = systems.resources_of(0).unwrap();
    assert_eq!(resources.len(), 2);
    assert_eq!(resources[0], TypeId::of::<Score>());
    assert_eq!(resources[1], TypeId::of::<Speed>());

    Ok(())
}

#[test]
fn delete_system_by_id() -> Result<(), CustomErrors> {
    let mut systems: Systems<SystemFn> = Systems::default();
    systems.create_system(damage_health).with_component(health())?;

    systems.delete_system_by_id(0)?;

    assert_eq!(systems.system_count(), 1);
    assert!(systems.components_of(0).is_some());
    assert!(systems.components_of(1).is_none());
    assert!(!systems.is_active(0));

    Ok(())
}

#[test]
fn created_systems_are_inserted_into_deleted_systems_columns() -> Result<(), CustomErrors> {
    let mut systems: Systems<SystemFn> = Systems::default();
    systems.create_system(damage_health).with_component(health())?;

    systems.create_system(increase_speed).with_component(speed())?;

    systems.delete_system_by_id(0)?;

    systems.create_system(both).with_component(health())?.with_component(speed())?;

    systems.create_system(damage_health).with_component(health())?;

    assert_eq!(systems.system_count(), 3);

    assert!(systems.is_active(0));
    assert!(systems.is_active(1));
    assert!(systems.is_active(2));

    let components = systems.components_of(0).unwrap();
    assert_eq!(components.len(), 2);
    assert_eq!(components[0], TypeId::of::<Health>());
    assert_eq!(components[1], TypeId::of::<Speed>());

    Ok(())
}

#[test]
fn should_happen_nothing_after_deleting_multiple_times_the_same_id() -> Result<(), CustomErrors> {
    let mut systems: Systems<SystemFn> = Systems::default();
    systems.create_system(damage_health).with_component(health())?;

    systems.create_system(increase_speed).with_component(speed())?;

    systems.delete_system_by_id(0)?;
    systems.delete_system_by_id(0)?;
    systems.delete_system_by_id(0)?;

    systems.create_system(both).with_component(health())?.with_component(speed())?;

    systems.create_system(damage_health).with_component(health())?;

    assert_eq!(systems.system_count(), 3);

    assert!(systems.is_active(0));
    assert!(systems.is_active(1));
    assert!(systems.is_active(2));

    let components = systems.components_of(0).unwrap();
    assert_eq!(components.len(), 2);
    assert_eq!(components[0], TypeId::of::<Health>());
    assert_eq!(components[1], TypeId::of::<Speed>());

    Ok(())
}

fn damage_health(
    entities: &Vec<QueryEntity>,
    store: &mut Entities<Component>,
    _resources: &mut Resources<Score>,
) -> Result<(), CustomErrors> {
    for entity in entities {
        match entity.get_component_mut(store, health())? {
            Component::Health(h) => h.0 -= 10,
            _ => return Err(CustomErrors::DowncastToWrongType),
        }
    }

    Ok(())
}

fn increase_speed(
    entities: &Vec<QueryEntity>,
    store: &mut Entities<Component>,
    _resources: &mut Resources<Score>,
) -> Result<(), CustomErrors> {
    for entity in entities {
        match entity.get_component_mut(store, speed())? {
            Component::Speed(s) => s.0 += 10,
            _ => return Err(CustomErrors::DowncastToWrongType),
        }
    }

    Ok(())
}

fn both(
    entities: &Vec<QueryEntity>,
    store: &mut Entities<Component>,
    resources: &mut Resources<Score>,
) -> Result<(), CustomErrors> {
    damage_health(entities, store, resources)?;
    increase_speed(entities, store, resources)
}

#[test]
fn system_entity_list_holds_exactly_the_required_types() -> Result<(), CustomErrors> {
    let mut entities: Entities<Component> = Entities::default();
    entities.register_component(health());
    entities.register_component(speed());
    entities
        .create_entity()
        .with_component(health(), Component::Health(Health(1)))?
        .with_component(speed(), Component::Speed(Speed(1)))?;
    entities.create_entity().with_component(speed(), Component::Speed(Speed(2)))?;
    entities
        .create_entity()
        .with_component(speed(), Component::Speed(Speed(3)))?
        .with_component(health(), Component::Health(Health(3)))?;

    let mut systems: Systems<SystemFn> = Systems::default();
    systems.create_system(both).with_component(health())?.with_component(speed())?;
    let ids: Vec<usize> = systems.entities_for(0, &entities)?.iter().map(|e| e.id).collect();
    assert_eq!(ids, vec![0, 2]);

    systems.create_system(increase_speed).with_component(speed())?;
    let ids: Vec<usize> = systems.entities_for(1, &entities)?.iter().map(|e| e.id).collect();
    assert_eq!(ids, vec![0, 1, 2]);

    systems.with_component(score())?;
    assert_eq!(systems.entities_for(1, &entities).err(), Some(CustomErrors::ComponentNotRegistered));
    Ok(())
}

#[test]
fn run_system_runs_one_slot() -> Result<(), CustomErrors> {
    let mut entities: Entities<Component> = Entities::default();
    let mut resources: Resources<Score> = Resources::default();
    entities.register_component(health());
    entities.create_entity().with_component(health(), Component::Health(Health(40)))?;

    let mut systems: Systems<SystemFn> = Systems::default();
    systems.create_system(damage_health).with_component(health())?;
    systems.create_system(increase_speed).with_component(speed())?;
    systems.create_system(damage_health).with_component(health())?;
    systems.delete_system_by_id(2)?;

    systems.run_system(0, &mut entities, &mut resources)?;
    assert_eq!(healths(&entities), vec![30]);

    assert_eq!(systems.run_system(1, &mut entities, &mut resources), Err(CustomErrors::ComponentNotRegistered));
    assert_eq!(systems.run_system(2, &mut entities, &mut resources), Ok(()));
    assert_eq!(healths(&entities), vec![30]);
    Ok(())
}
