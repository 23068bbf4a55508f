use ecs_core::component::{ComponentBox, ComponentKind, NameComponent};
use ecs_core::component_manager::{ManagerBox, NameComponentManager};
use ecs_core::generational_id::GenerationalId;
use ecs_core::query::{Query, QueryAccess, QueryElement, QueryPart};
use ecs_core::system::{NameSystem, SystemBox, SystemKind};
use ecs_core::system_manager::SystemManager;
use ecs_core::universe::Universe;
use ecs_core::world::World;

fn take_name_system_lines(sm: &mut SystemManager) -> Vec<String> {
    // with one registered system the scheduler holds it at position 0
    match sm.system_at(0) {
        SystemBox::Name(ns) => ns.take_lines(),
    }
}

#[test]
fn query_constructors_build_the_tree() {
    let p = QueryPart::new(QueryAccess::Read, ComponentKind::Name);
    assert_eq!(p.acc, QueryAccess::Read);
    assert_eq!(p.comp, ComponentKind::Name);
    match QueryElement::has(ComponentKind::Name) {
        QueryElement::Part(part) => assert_eq!(part.acc, QueryAccess::Check),
        _ => panic!("leaf expected"),
    }
    match QueryElement::read_write(ComponentKind::Name) {
        QueryElement::Part(part) => assert_eq!(part.acc, QueryAccess::ReadWrite),
        _ => panic!("leaf expected"),
    }
    let l = QueryElement::read(ComponentKind::Name);
    let r = QueryElement::has(ComponentKind::Name);
    match QueryElement::and(l, r) {
        QueryElement::And(bl, br) => {
            assert!(matches!(*bl, QueryElement::Part(_)));
            assert!(matches!(*br, QueryElement::Part(_)));
        }
        _ => panic!("conjunction expected"),
    }
    match QueryElement::not(QueryElement::has(ComponentKind::Name)) {
        QueryElement::Not(b) => assert!(matches!(*b, QueryElement::Part(_))),
        _ => panic!("negation expected"),
    }
    assert!(matches!(
        QueryElement::or(
            QueryElement::has(ComponentKind::Name),
            QueryElement::has(ComponentKind::Name)
        ),
        QueryElement::Or(_, _)
    ));
    assert!(matches!(
        QueryElement::xor(
            QueryElement::has(ComponentKind::Name),
            QueryElement::has(ComponentKind::Name)
        ),
        QueryElement::Xor(_, _)
    ));
}

#[test]
fn query_and_appends_conjuncts() {
    let mut q = Query::new(QueryElement::read(ComponentKind::Name));
    assert_eq!(q.query.len(), 1);
    q.and(QueryElement::has(ComponentKind::Name));
    assert_eq!(q.query.len(), 2);
    let q2 = q.clone();
    assert_eq!(q2.query.len(), 2);
}

#[test]
fn name_system_publishes_read_query() {
    let sys = NameSystem::new();
    let q = sys.query();
    assert_eq!(q.query.len(), 1);
    match &q.query[0] {
        QueryElement::Part(p) => {
            assert_eq!(p.acc, QueryAccess::Read);
            assert_eq!(p.comp, ComponentKind::Name);
        }
        _ => panic!("leaf expected"),
    }
}

fn demo_world() -> (World, GenerationalId, GenerationalId, GenerationalId) {
    let mut w = World::new();
    w.register_manager(ManagerBox::Name(NameComponentManager::new()));
    let a = w.spawn();
    let b = w.spawn();
    let c = w.spawn();
    w.attach_component(a, ComponentBox::Name(NameComponent::new(String::from("First"))))
        .unwrap();
    w.attach_component(c, ComponentBox::Name(NameComponent::new(String::from("Third"))))
        .unwrap();
    (w, a, b, c)
}

#[test]
fn named_entities_print_in_insertion_order() {
    let (w, a, b, c) = demo_world();
    assert_eq!(a, GenerationalId::new(0, 1));
    assert_eq!(b, GenerationalId::new(1, 1));
    assert_eq!(c, GenerationalId::new(2, 1));
    let mut sm = SystemManager::new();
    sm.append(SystemBox::Name(NameSystem::new()));
    sm.execute(&w, 16);
    let lines = take_name_system_lines(&mut sm);
    assert_eq!(lines, vec!["First".to_string(), "Third".to_string()]);
}

#[test]
fn scenario_delete_and_lifo_respawn() {
    let (mut w, a, b, c) = demo_world();
    let mut sm = SystemManager::new();
    sm.append(SystemBox::Name(NameSystem::new()));
    sm.execute(&w, 16);
    assert_eq!(
        take_name_system_lines(&mut sm),
        vec!["First".to_string(), "Third".to_string()]
    );
    w.delete(a).unwrap();
    w.delete(b).unwrap();
    assert!(!w.is_alive(a));
    assert!(!w.is_alive(b));
    assert!(w.is_alive(c));
    // LIFO recycling: the more recently freed slot comes back first
    let d = w.spawn();
    assert_eq!(d, GenerationalId::new(1, 2));
    let e = w.spawn();
    assert_eq!(e, GenerationalId::new(0, 2));
}

#[test]
fn disable_produces_no_output_and_enable_restores_it() {
    let (w, _a, _b, _c) = demo_world();
    let mut sm = SystemManager::new();
    sm.append(SystemBox::Name(NameSystem::new()));
    sm.execute(&w, 16);
    let before = take_name_system_lines(&mut sm);
    assert_eq!(before, vec!["First".to_string(), "Third".to_string()]);

    sm.disable(SystemKind::Name);
    sm.execute(&w, 16);
    assert_eq!(take_name_system_lines(&mut sm), Vec::<String>::new());

    sm.enable(SystemKind::Name);
    sm.execute(&w, 16);
    let after = take_name_system_lines(&mut sm);
    assert_eq!(after, before);
}

#[test]
fn toggling_an_unknown_kind_is_a_no_op() {
    let (w, _a, _b, _c) = demo_world();
    let mut sm = SystemManager::new();
    sm.disable(SystemKind::Name);
    sm.enable(SystemKind::Name);
    sm.execute(&w, 16);
}

#[test]
fn universe_bundles_world_and_scheduler() {
    let mut u = Universe::new(|| {
        let (w, _a, _b, _c) = demo_world();
        let mut sm = SystemManager::new();
        sm.append(SystemBox::Name(NameSystem::new()));
        (w, sm)
    });
    assert!(!u.world_mut().should_quit());
    u.run_once(16);
    let lines = take_name_system_lines(u.systems_mut());
    assert_eq!(lines, vec!["First".to_string(), "Third".to_string()]);
}

#[test]
fn run_on_world_without_name_store_yields_nothing() {
    let w = World::new();
    let mut sys = NameSystem::new();
    sys.run(&w, 16);
    assert_eq!(sys.take_lines(), Vec::<String>::new());
}
