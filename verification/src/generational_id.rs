use vstd::prelude::*;
use vstd::std_specs::cmp::PartialOrdSpec;

verus! {

/// A stale-safe handle to an entity: a slot index paired with a generation
/// counter. A handle is only meaningful while the store's slot at `index`
/// still carries the same `generation`; a recycled slot carries a higher
/// generation, so old handles go stale instead of silently aliasing a new
/// entity. Generation 0 is a reserved tombstone value and is never issued
/// to a live id.
#[derive(Copy, Clone, Debug, Hash, PartialEq, Eq, Structural)]
pub struct GenerationalId {
    pub index: u32,
    pub generation: u32,
}

/// The total order on ids: primary key `index`, secondary key `generation`.
pub open spec fn id_lt(a: GenerationalId, b: GenerationalId) -> bool {
    a.index < b.index || (a.index == b.index && a.generation < b.generation)
}

impl GenerationalId {
    /// Creates a new id from a slot index and a generation counter.
    pub fn new(index: u32, generation: u32) -> (r: GenerationalId)
        ensures
            r.index == index,
            r.generation == generation,
    {
        GenerationalId { index, generation }
    }

    /// Packs the id into a single integer, index in the high half and
    /// generation in the low half. The packing is injective, so the packed
    /// value can key a map in place of the id itself.
    pub fn key(&self) -> (r: u64)
        ensures
            r == self.key_spec(),
    {
        let hi: u64 = self.index as u64;
        let lo: u64 = self.generation as u64;
        proof {
            assert((hi << 32u64) | lo == hi * 0x1_0000_0000 + lo) by (bit_vector)
                requires
                    hi < 0x1_0000_0000,
                    lo < 0x1_0000_0000,
            ;
        }
        (hi << 32u64) | lo
    }

    /// The packed form of the id: `index * 2^32 + generation`.
    pub open spec fn key_spec(&self) -> u64 {
        (self.index * 0x1_0000_0000 + self.generation) as u64
    }
}

impl PartialOrd for GenerationalId {
    fn partial_cmp(&self, other: &GenerationalId) -> (r: Option<core::cmp::Ordering>) {
        if self.index < other.index {
            Some(core::cmp::Ordering::Less)
        } else if self.index > other.index {
            Some(core::cmp::Ordering::Greater)
        } else {
            if self.generation < other.generation {
                Some(core::cmp::Ordering::Less)
            } else if self.generation > other.generation {
                Some(core::cmp::Ordering::Greater)
            } else {
                Some(core::cmp::Ordering::Equal)
            }
        }
    }
}

impl vstd::std_specs::cmp::PartialOrdSpecImpl for GenerationalId {
    open spec fn obeys_partial_cmp_spec() -> bool {
        true
    }

    open spec fn partial_cmp_spec(&self, other: &GenerationalId) -> Option<core::cmp::Ordering> {
        if id_lt(*self, *other) {
            Some(core::cmp::Ordering::Less)
        } else if id_lt(*other, *self) {
            Some(core::cmp::Ordering::Greater)
        } else {
            Some(core::cmp::Ordering::Equal)
        }
    }
}

/// Law: the comparison of two ids is total and orders them by index first,
/// then by generation; two ids compare equal exactly when both fields match.
pub proof fn lemma_id_order(a: GenerationalId, b: GenerationalId)
    ensures
        a.partial_cmp_spec(&b) == Some(core::cmp::Ordering::Less) <==> (a.index < b.index || (
        a.index == b.index && a.generation < b.generation)),
        a.partial_cmp_spec(&b) == Some(core::cmp::Ordering::Greater) <==> (b.index < a.index || (
        b.index == a.index && b.generation < a.generation)),
        a.partial_cmp_spec(&b) == Some(core::cmp::Ordering::Equal) <==> a == b,
{
}

/// Law: the packing used to key maps by id is injective, so distinct ids
/// never collide on one key.
pub proof fn lemma_key_injective(a: GenerationalId, b: GenerationalId)
    ensures
        a.key_spec() == b.key_spec() <==> a == b,
{
    assert(a.key_spec() == b.key_spec() ==> a == b) by {
        if a.key_spec() == b.key_spec() {
            assert(a.index * 0x1_0000_0000 + a.generation == b.index * 0x1_0000_0000
                + b.generation) by {
                assert(a.index * 0x1_0000_0000 + a.generation <= u64::MAX) by (nonlinear_arith)
                    requires
                        a.index <= u32::MAX,
                        a.generation <= u32::MAX,
                ;
                assert(b.index * 0x1_0000_0000 + b.generation <= u64::MAX) by (nonlinear_arith)
                    requires
                        b.index <= u32::MAX,
                        b.generation <= u32::MAX,
                ;
            }
            assert(a.index == b.index && a.generation == b.generation) by (nonlinear_arith)
                requires
                    a.index * 0x1_0000_0000 + a.generation == b.index * 0x1_0000_0000
                        + b.generation,
                    a.generation < 0x1_0000_0000,
                    b.generation < 0x1_0000_0000,
            ;
        }
    }
}

} // verus!
