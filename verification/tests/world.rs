use ecs_core::component::{ComponentBox, ComponentKind, NameComponent};
use ecs_core::component_manager::{ManagerBox, NameComponentManager};
use ecs_core::error::EcsError;
use ecs_core::generational_id::GenerationalId;
use ecs_core::world::World;

fn gid(index: u32, generation: u32) -> GenerationalId {
    GenerationalId::new(index, generation)
}

#[test]
fn spawn_delete_respawn_reuses_slot_lifo() {
    let mut w = World::new();
    let x = w.spawn();
    assert_eq!(x, gid(0, 1));
    assert_eq!(w.delete(x), Ok(()));
    assert!(!w.is_alive(x));
    let y = w.spawn();
    assert_eq!(y, gid(0, 2));
    assert!(w.is_alive(y));
}

#[test]
fn delete_rejects_out_of_range_and_stale_handles() {
    let mut w = World::new();
    let x = w.spawn();
    assert_eq!(w.delete(gid(5, 1)), Err(EcsError::InvalidEntity));
    assert_eq!(w.delete(gid(0, 9)), Err(EcsError::InvalidEntity));
    assert_eq!(w.delete(x), Ok(()));
    // the handle went stale, a second delete is rejected
    assert_eq!(w.delete(x), Err(EcsError::InvalidEntity));
}

#[test]
fn fresh_slots_number_upward() {
    let mut w = World::new();
    assert_eq!(w.spawn(), gid(0, 1));
    assert_eq!(w.spawn(), gid(1, 1));
    assert_eq!(w.spawn(), gid(2, 1));
    assert!(w.is_alive(gid(1, 1)));
    assert!(!w.is_alive(gid(3, 1)));
}

#[test]
fn attach_component_guards() {
    let mut w = World::new();
    let e = w.spawn();
    // no manager registered yet
    assert_eq!(
        w.attach_component(e, ComponentBox::Name(NameComponent::new(String::from("A")))),
        Err(EcsError::MissingManager)
    );
    w.register_manager(ManagerBox::Name(NameComponentManager::new()));
    assert_eq!(
        w.attach_component(gid(9, 1), ComponentBox::Name(NameComponent::new(String::from("A")))),
        Err(EcsError::InvalidEntity)
    );
    assert_eq!(
        w.attach_component(e, ComponentBox::Name(NameComponent::new(String::from("A")))),
        Ok(())
    );
    assert_eq!(
        w.attach_component(e, ComponentBox::Name(NameComponent::new(String::from("B")))),
        Err(EcsError::DuplicateComponent)
    );
    // the first value is unchanged
    match w.manager(ComponentKind::Name).unwrap() {
        ManagerBox::Name(m) => {
            assert_eq!(m.fetch(e).unwrap().name, "A");
        }
    }
}

#[test]
fn delete_removes_components_at_once() {
    let mut w = World::new();
    w.register_manager(ManagerBox::Name(NameComponentManager::new()));
    let a = w.spawn();
    let b = w.spawn();
    assert_eq!(
        w.attach_component(a, ComponentBox::Name(NameComponent::new(String::from("A")))),
        Ok(())
    );
    assert_eq!(
        w.attach_component(b, ComponentBox::Name(NameComponent::new(String::from("B")))),
        Ok(())
    );
    assert_eq!(w.delete(a), Ok(()));
    match w.manager(ComponentKind::Name).unwrap() {
        ManagerBox::Name(m) => {
            assert!(m.fetch(a).is_none());
            assert_eq!(m.fetch(b).unwrap().name, "B");
        }
    }
}

#[test]
fn clone_components_of_snapshots() {
    let mut w = World::new();
    w.register_manager(ManagerBox::Name(NameComponentManager::new()));
    let e = w.spawn();
    assert_eq!(
        w.attach_component(e, ComponentBox::Name(NameComponent::new(String::from("Hero")))),
        Ok(())
    );
    let (ent, comps) = w.clone_components_of(e).unwrap();
    assert_eq!(ent.id, e);
    assert_eq!(comps.len(), 1);
    match &comps[0] {
        ComponentBox::Name(c) => {
            assert_eq!(c.name, "Hero");
            assert_eq!(c.get_owner(), e);
        }
    }
    // the snapshot is independent of live storage
    assert_eq!(w.delete(e), Ok(()));
    match &comps[0] {
        ComponentBox::Name(c) => assert_eq!(c.name, "Hero"),
    }
    assert!(matches!(w.clone_components_of(e), Err(EcsError::InvalidEntity)));
}

#[test]
fn manager_lookup_and_rebinding() {
    let mut w = World::new();
    assert!(w.manager(ComponentKind::Name).is_none());
    assert!(w.manager_mut(ComponentKind::Name).is_none());
    w.register_manager(ManagerBox::Name(NameComponentManager::new()));
    assert!(w.manager(ComponentKind::Name).is_some());
    let e = w.spawn();
    assert_eq!(
        w.attach_component(e, ComponentBox::Name(NameComponent::new(String::from("A")))),
        Ok(())
    );
    // last write wins: rebinding the kind replaces the store
    w.register_manager(ManagerBox::Name(NameComponentManager::new()));
    match w.manager(ComponentKind::Name).unwrap() {
        ManagerBox::Name(m) => assert!(m.fetch(e).is_none()),
    }
}

#[test]
fn manager_mut_gives_exclusive_access() {
    let mut w = World::new();
    w.register_manager(ManagerBox::Name(NameComponentManager::new()));
    let e = w.spawn();
    {
        let m = w.manager_mut(ComponentKind::Name).unwrap();
        match m {
            ManagerBox::Name(mgr) => {
                assert_eq!(mgr.insert(e, NameComponent::new(String::from("X"))), Ok(()));
            }
        }
    }
    match w.manager(ComponentKind::Name).unwrap() {
        ManagerBox::Name(m) => assert_eq!(m.fetch(e).unwrap().name, "X"),
    }
}

#[test]
fn world_update_flushes_deferred_deletions() {
    let mut w = World::new();
    w.register_manager(ManagerBox::Name(NameComponentManager::new()));
    let e = w.spawn();
    assert_eq!(
        w.attach_component(e, ComponentBox::Name(NameComponent::new(String::from("A")))),
        Ok(())
    );
    {
        let m = w.manager_mut(ComponentKind::Name).unwrap();
        match m {
            ManagerBox::Name(mgr) => assert_eq!(mgr.delete(e), Ok(())),
        }
    }
    // deferred: still fetchable before the tick boundary
    match w.manager(ComponentKind::Name).unwrap() {
        ManagerBox::Name(m) => assert!(m.fetch(e).is_some()),
    }
    w.update();
    match w.manager(ComponentKind::Name).unwrap() {
        ManagerBox::Name(m) => assert!(m.fetch(e).is_none()),
    }
}

#[test]
fn should_quit_starts_false() {
    let w = World::new();
    assert!(!w.should_quit());
}
