use ecs_core::component::{u32_to_decimal, NameComponent};
use ecs_core::entity::Entity;
use ecs_core::generational_id::GenerationalId;

#[test]
fn ordering_by_index_then_generation() {
    let a = GenerationalId::new(0, 5);
    let b = GenerationalId::new(1, 0);
    assert!(a < b);
    assert!(b > a);
    let c = GenerationalId::new(1, 1);
    assert!(b < c);
    let d = GenerationalId::new(1, 1);
    assert!(c == d);
    assert!(!(c < d));
    assert!(!(c > d));
    assert!(GenerationalId::new(2, 0) > GenerationalId::new(1, 9));
}

#[test]
fn equality_needs_both_fields() {
    assert_eq!(GenerationalId::new(3, 4), GenerationalId::new(3, 4));
    assert_ne!(GenerationalId::new(3, 4), GenerationalId::new(3, 5));
    assert_ne!(GenerationalId::new(3, 4), GenerationalId::new(4, 4));
}

#[test]
fn packed_key_is_injective_on_examples() {
    let a = GenerationalId::new(0, 1);
    let b = GenerationalId::new(1, 0);
    assert_ne!(a.key(), b.key());
    assert_eq!(a.key(), GenerationalId::new(0, 1).key());
    assert_eq!(GenerationalId::new(1, 2).key(), (1u64 << 32) | 2u64);
}

#[test]
fn entity_orders_as_its_id() {
    let e1 = Entity::new(GenerationalId::new(0, 1));
    let e2 = Entity::new(GenerationalId::new(0, 2));
    let e3 = Entity::new(GenerationalId::new(0, 1));
    assert!(e1 < e2);
    assert_eq!(e1, e3);
}

#[test]
fn decimal_rendering_exact() {
    assert_eq!(u32_to_decimal(0), "0");
    assert_eq!(u32_to_decimal(7), "7");
    assert_eq!(u32_to_decimal(10), "10");
    assert_eq!(u32_to_decimal(305), "305");
    assert_eq!(u32_to_decimal(u32::MAX), "4294967295");
}

#[test]
fn name_component_text_repr_exact_layout() {
    let mut c = NameComponent::new(String::from("Hero"));
    c.set_owner(GenerationalId::new(2, 3));
    assert_eq!(
        c.text_repr(),
        "{\n\towner: {\n\t\tid: 2,\n\t\tgen: 3\n\t},\n\tname: Hero\n}"
    );
}

#[test]
fn name_component_label_and_fresh_owner() {
    let c = NameComponent::new(String::from("x"));
    assert_eq!(c.type_label(), "NameComponent");
    assert_eq!(c.get_owner(), GenerationalId::new(0, 0));
    assert_eq!(c.name, "x");
}
