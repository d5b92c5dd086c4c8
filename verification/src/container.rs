use vstd::prelude::*;

verus! {

// The typed world of `bevy_ecs` is the external store behind the container; it
// is opaque to the verifier and only reached through the trusted items here
// and in `resources`.
#[verifier::external_type_specification]
#[verifier::external_body]
pub struct ExWorld(bevy_ecs::world::World);

/// Relies on `bevy_ecs::world::World::new`: creates an empty world, holding no
/// resources.
#[verifier::external_body]
fn new_world() -> bevy_ecs::world::World {
    bevy_ecs::world::World::new()
}

/// The shared typed container that initializers run against: a mapping from a
/// type identity to one owned value of that type, with insert-or-replace and
/// lookup. `token_set` tracks which identities have been inserted through it.
/// The build step is single-threaded and the resources are stored without a
/// `Send` bound, so the container and what it holds belong to the thread that
/// created it; the underlying store aborts a cross-thread access.
pub struct Container {
    pub(crate) world: bevy_ecs::world::World,
    pub(crate) token_set: Ghost<Set<core::any::TypeId>>,
}

impl Container {
    /// The identities of the resources inserted so far through this container.
    pub closed spec fn tokens(&self) -> Set<core::any::TypeId> {
        self.token_set@
    }

    pub fn new() -> (c: Container)
        ensures
            c.tokens() == Set::<core::any::TypeId>::empty(),
    {
        Container { world: new_world(), token_set: Ghost(Set::empty()) }
    }

    /// Relies on `bevy_ecs::world::World::get_non_send_resource`: returns a
    /// copy of the stored resource of type `T`, or `None` if absent. Reading
    /// hands out a clone rather than a reference, so post-build reads need
    /// `T: Clone`; the container must stay on the thread that built it.
    #[verifier::external_body]
    pub fn get_resource<T: 'static + Clone>(&self) -> Option<T> {
        self.world.get_non_send_resource::<T>().cloned()
    }
}

} // verus!
