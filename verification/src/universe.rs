use vstd::prelude::*;
use crate::system::{lines_of, run_appends};
use crate::system_manager::SystemManager;
use crate::world::World;

verus! {

/// The thin coordinator: one world and one scheduler, wired together by an
/// initialization function and driven one tick at a time by the program's
/// run loop.
pub struct Universe {
    world: World,
    systems: SystemManager,
}

impl Universe {
    /// The held world.
    pub closed spec fn world_spec(self) -> World {
        self.world
    }

    /// The held scheduler.
    pub closed spec fn systems_spec(self) -> SystemManager {
        self.systems
    }

    /// Creates a universe from an initialization function that sets up any
    /// library state and returns the initial world and scheduler.
    pub fn new<I: FnOnce() -> (World, SystemManager)>(init_func: I) -> (r: Universe)
        requires
            call_requires(init_func, ()),
        ensures
            call_ensures(init_func, (), (r.world_spec(), r.systems_spec())),
    {
        let (w, sm) = init_func();
        Universe { world: w, systems: sm }
    }

    /// An exclusive handle to the held world.
    pub fn world_mut(&mut self) -> (r: &mut World)
        ensures
            *r == old(self).world_spec(),
            final(self).world_spec() == *final(r),
            final(self).systems_spec() == old(self).systems_spec(),
    {
        &mut self.world
    }

    /// An exclusive handle to the held scheduler.
    pub fn systems_mut(&mut self) -> (r: &mut SystemManager)
        ensures
            *r == old(self).systems_spec(),
            final(self).systems_spec() == *final(r),
            final(self).world_spec() == old(self).world_spec(),
    {
        &mut self.systems
    }

    /// Runs the scheduler for one tick against the held world.
    pub fn run_once(&mut self, dt: u64)
        requires
            old(self).world_spec().wf(),
            old(self).systems_spec().wf(),
        ensures
            final(self).world_spec() == old(self).world_spec(),
            final(self).systems_spec().wf(),
            final(self).systems_spec().enabled() == old(self).systems_spec().enabled(),
            final(self).systems_spec().bindings() == old(self).systems_spec().bindings(),
            final(self).systems_spec().systems().len() == old(
                self,
            ).systems_spec().systems().len(),
            forall|i: int|
                0 <= i < old(self).systems_spec().systems().len() ==> lines_of(
                    #[trigger] final(self).systems_spec().systems()[i],
                ) == if old(self).systems_spec().enabled()[i] {
                    lines_of(old(self).systems_spec().systems()[i]) + run_appends(
                        old(self).systems_spec().systems()[i],
                        old(self).world_spec(),
                    )
                } else {
                    lines_of(old(self).systems_spec().systems()[i])
                },
    {
        self.systems.execute(&self.world, dt);
    }
}

} // verus!
