use ecs_core::component::{ComponentBox, NameComponent};
use ecs_core::component_manager::{ManagerBox, NameComponentManager};
use ecs_core::error::EcsError;
use ecs_core::generational_id::GenerationalId;

fn id(i: u32) -> GenerationalId {
    GenerationalId::new(i, 1)
}

#[test]
fn duplicate_insert_rejected_first_value_unchanged() {
    let mut m = NameComponentManager::new();
    let owner = id(0);
    assert_eq!(m.insert(owner, NameComponent::new(String::from("First"))), Ok(()));
    assert_eq!(
        m.insert(owner, NameComponent::new(String::from("Second"))),
        Err(EcsError::DuplicateComponent)
    );
    let c = m.fetch(owner).unwrap();
    assert_eq!(c.name, "First");
    assert_eq!(c.get_owner(), owner);
}

#[test]
fn compaction_keeps_unmarked_owners() {
    let mut m = NameComponentManager::new();
    let names = ["O1", "O2", "O3", "O4", "O5"];
    for (i, n) in names.iter().enumerate() {
        assert_eq!(m.insert(id(i as u32), NameComponent::new(String::from(*n))), Ok(()));
    }
    assert_eq!(m.delete(id(1)), Ok(()));
    assert_eq!(m.delete(id(3)), Ok(()));
    m.update();
    assert_eq!(m.len(), 3);
    for (i, n) in [(0u32, "O1"), (2u32, "O3"), (4u32, "O5")] {
        let c = m.fetch(id(i)).unwrap();
        assert_eq!(c.name, n);
        // the position map resolves to an entry whose stored owner matches
        assert_eq!(c.get_owner(), id(i));
    }
    assert!(m.fetch(id(1)).is_none());
    assert!(m.fetch(id(3)).is_none());
}

#[test]
fn deferred_delete_stays_fetchable_until_update() {
    let mut m = NameComponentManager::new();
    assert_eq!(m.insert(id(0), NameComponent::new(String::from("A"))), Ok(()));
    assert_eq!(m.delete(id(0)), Ok(()));
    assert!(m.fetch(id(0)).is_some());
    assert!(m.has_component(id(0)));
    m.update();
    assert!(m.fetch(id(0)).is_none());
    assert!(!m.has_component(id(0)));
}

#[test]
fn delete_now_is_synchronous() {
    let mut m = NameComponentManager::new();
    assert_eq!(m.insert(id(0), NameComponent::new(String::from("A"))), Ok(()));
    assert_eq!(m.insert(id(1), NameComponent::new(String::from("B"))), Ok(()));
    assert_eq!(m.delete_now(id(0)), Ok(()));
    assert!(m.fetch(id(0)).is_none());
    let c = m.fetch(id(1)).unwrap();
    assert_eq!(c.name, "B");
    assert_eq!(c.get_owner(), id(1));
}

#[test]
fn delete_now_adjusts_pending_positions() {
    let mut m = NameComponentManager::new();
    for (i, n) in ["A", "B", "C", "D"].iter().enumerate() {
        assert_eq!(m.insert(id(i as u32), NameComponent::new(String::from(*n))), Ok(()));
    }
    // mark D (position 3) for deferred deletion, then synchronously remove
    // B (position 1): the queued position must shift down with the store
    assert_eq!(m.delete(id(3)), Ok(()));
    assert_eq!(m.delete_now(id(1)), Ok(()));
    m.update();
    assert_eq!(m.len(), 2);
    assert_eq!(m.fetch(id(0)).unwrap().name, "A");
    assert_eq!(m.fetch(id(2)).unwrap().name, "C");
    assert!(m.fetch(id(1)).is_none());
    assert!(m.fetch(id(3)).is_none());
}

#[test]
fn missing_component_errors() {
    let mut m = NameComponentManager::new();
    assert_eq!(m.delete(id(9)), Err(EcsError::MissingComponent));
    assert_eq!(m.delete_now(id(9)), Err(EcsError::MissingComponent));
    assert!(m.fetch(id(9)).is_none());
}

#[test]
fn fetch_mut_edits_in_place() {
    let mut m = NameComponentManager::new();
    assert_eq!(m.insert(id(0), NameComponent::new(String::from("old"))), Ok(()));
    {
        let c = m.fetch_mut(id(0)).unwrap();
        c.name = String::from("new");
    }
    assert_eq!(m.fetch(id(0)).unwrap().name, "new");
    assert!(m.fetch_mut(id(7)).is_none());
}

#[test]
fn manager_box_forwards_to_typed_store() {
    let mut m = NameComponentManager::new();
    assert_eq!(m.insert(id(0), NameComponent::new(String::from("A"))), Ok(()));
    assert_eq!(m.insert(id(1), NameComponent::new(String::from("B"))), Ok(()));
    let mut b = ManagerBox::Name(m);
    assert!(b.general_has_component(id(0)));
    assert!(!b.general_has_component(id(5)));
    match b.fetch_dyn(id(1)) {
        Some(ComponentBox::Name(c)) => {
            assert_eq!(c.name, "B");
            assert_eq!(c.get_owner(), id(1));
        }
        None => panic!("component expected"),
    }
    assert_eq!(b.general_delete(id(0)), Ok(()));
    assert!(b.general_has_component(id(0)));
    b.general_update();
    assert!(!b.general_has_component(id(0)));
    assert_eq!(b.general_delete_now(id(1)), Ok(()));
    assert!(!b.general_has_component(id(1)));
    assert_eq!(b.general_delete(id(1)), Err(EcsError::MissingComponent));
    assert_eq!(b.general_delete_now(id(1)), Err(EcsError::MissingComponent));
}

#[test]
fn dynamic_clone_is_independent() {
    let mut src = NameComponent::new(String::from("copy me"));
    src.set_owner(id(4));
    let cloned = src.dynamic_clone();
    src.name = String::from("changed");
    match cloned {
        ComponentBox::Name(c) => {
            assert_eq!(c.name, "copy me");
            assert_eq!(c.get_owner(), id(4));
        }
    }
}
