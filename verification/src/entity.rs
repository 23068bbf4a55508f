use vstd::prelude::*;
use vstd::std_specs::cmp::PartialOrdSpec;
use crate::generational_id::{GenerationalId, id_lt};

verus! {

/// A single game object. An entity is nothing but its generational id:
/// all of its data lives in component stores keyed by that id, and two
/// entities with equal ids are the same entity.
#[derive(Copy, Clone, Debug, PartialEq, Eq, Structural)]
pub struct Entity {
    pub id: GenerationalId,
}

impl Entity {
    /// Creates a new entity holding the given id.
    pub fn new(gen_id: GenerationalId) -> (r: Entity)
        ensures
            r.id == gen_id,
    {
        Entity { id: gen_id }
    }
}

impl PartialOrd for Entity {
    fn partial_cmp(&self, other: &Entity) -> (r: Option<core::cmp::Ordering>) {
        self.id.partial_cmp(&other.id)
    }
}

impl vstd::std_specs::cmp::PartialOrdSpecImpl for Entity {
    open spec fn obeys_partial_cmp_spec() -> bool {
        true
    }

    open spec fn partial_cmp_spec(&self, other: &Entity) -> Option<core::cmp::Ordering> {
        if id_lt(self.id, other.id) {
            Some(core::cmp::Ordering::Less)
        } else if id_lt(other.id, self.id) {
            Some(core::cmp::Ordering::Greater)
        } else {
            Some(core::cmp::Ordering::Equal)
        }
    }
}

/// Law: entities order exactly as their ids do.
pub proof fn lemma_entity_order(a: Entity, b: Entity)
    ensures
        a.partial_cmp_spec(&b) == Some(core::cmp::Ordering::Less) <==> id_lt(a.id, b.id),
        a.partial_cmp_spec(&b) == Some(core::cmp::Ordering::Equal) <==> a == b,
{
}

} // verus!
