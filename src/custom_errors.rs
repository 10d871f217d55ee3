use vstd::prelude::*;

verus! {

/// The errors of the entity-component runtime.
#[derive(Debug, Clone, Copy, PartialEq, Eq, Structural)]
pub enum CustomErrors {
    /// A component was added to "the entity under construction" before any entity was created.
    CreateEntityNeverCalled,
    /// A component type was used without being registered first.
    ComponentNotRegistered,
    /// An entity index lies outside the allocated range.
    EntityDoesNotExist,
    /// The entity does not hold the requested component.
    ComponentDataDoesNotExist,
    /// A requirement was added to "the system under construction" before any system was created.
    CreateSystemNeverCalled,
    /// The system does not require the component type that was to be removed.
    ComponentInSystemDoesNotExist,
    /// The system does not require the resource type that was to be removed.
    ResourceInSystemDoesNotExist,
    /// A system index lies outside the allocated range, or names a deleted system.
    SystemDoesNotExist,
    /// A stored value did not have the type its key implies.
    DowncastToWrongType,
}

} // verus!
