use std::any::TypeId;

use axle_ecs::resources::Resources;

#[derive(Debug, Clone, Copy, PartialEq)]
struct WorldWidth(pub f32);

#[derive(Debug, Clone, Copy, PartialEq)]
enum Resource {
    WorldWidth(WorldWidth),
    Score(u32),
}

fn world_width() -> TypeId {
    TypeId::of::<WorldWidth>()
}

fn initialize_resource() -> Resources<Resource> {
    let mut resources = Resources::default();
    let world_width = WorldWidth(100.0);

    resources.add(TypeId::of::<WorldWidth>(), Resource::WorldWidth(world_width));

    resources
}

#[test]
fn add_resource() {
    let resources = initialize_resource();

    let stored_resource = resources.get_ref(world_width()).unwrap();
    assert_eq!(*stored_resource, Resource::WorldWidth(WorldWidth(100.0)));
}

#[test]
fn get_resource() {
    let resources = initialize_resource();

    if let Some(Resource::WorldWidth(extracted_world_width)) = resources.get_ref(world_width()) {
        assert_eq!(extracted_world_width.0, 100.0);
    } else {
        panic!("the world width is missing");
    }
}

#[test]
fn get_resource_mut() {
    let mut resources = initialize_resource();

    {
        if let Some(Resource::WorldWidth(world_width)) = resources.get_mut(world_width()) {
            world_width.0 += 1.0;
        }
    }

    let world_width = resources.get_ref(world_width()).unwrap();
    assert_eq!(*world_width, Resource::WorldWidth(WorldWidth(101.0)));
}

#[test]
fn remove_resource() {
    let mut resources = initialize_resource();
    resources.remove(world_width());

    assert!(resources.get_ref(world_width()).is_none());
}

#[test]
fn adding_a_resource_again_replaces_it() {
    let mut resources = initialize_resource();
    resources.add(TypeId::of::<u32>(), Resource::Score(7));
    resources.add(world_width(), Resource::WorldWidth(WorldWidth(5.0)));

    assert_eq!(resources.get_ref(world_width()), Some(&Resource::WorldWidth(WorldWidth(5.0))));
    assert_eq!(resources.get_ref(TypeId::of::<u32>()), Some(&Resource::Score(7)));
}

#[test]
fn missing_resource_is_absent_and_removing_it_is_harmless() {
    let mut resources = initialize_resource();
    assert!(resources.get_ref(TypeId::of::<u32>()).is_none());
    assert!(resources.get_mut(TypeId::of::<u32>()).is_none());
    resources.remove(TypeId::of::<u32>());
    assert!(resources.get_ref(world_width()).is_some());
}
