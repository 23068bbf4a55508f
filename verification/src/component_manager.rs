use vstd::prelude::*;
use std::collections::HashMap;
use crate::component::{ComponentBox, ComponentKind, NameComponent};
use crate::error::EcsError;
use crate::generational_id::{GenerationalId, lemma_key_injective};

verus! {

broadcast use vstd::std_specs::hash::group_hash_axioms;

/// Whether the integer `x` occurs in `p`.
pub open spec fn seq_has(p: Seq<usize>, x: int) -> bool {
    exists|j: int| 0 <= j < p.len() && p[j] == x
}

/// The ascending list of the positions in `[0, n)` that are not in `pend`:
/// the positions that survive a compaction that removes `pend`.
pub open spec fn kept_indices(n: int, pend: Set<int>) -> Seq<int>
    decreases n,
{
    if n <= 0 {
        Seq::empty()
    } else if pend.contains(n - 1) {
        kept_indices(n - 1, pend)
    } else {
        kept_indices(n - 1, pend).push(n - 1)
    }
}

/// The subsequence of `s` at the positions not in `pend`, in order: what a
/// compaction that removes the positions `pend` leaves behind.
pub open spec fn survivors<T>(s: Seq<T>, pend: Set<int>) -> Seq<T> {
    kept_indices(s.len() as int, pend).map_values(|i: int| s[i])
}

/// The kept positions are exactly the in-range positions not in `pend`,
/// and they are listed in strictly ascending order.
pub proof fn lemma_kept_indices(n: int, pend: Set<int>)
    ensures
        forall|j: int|
            0 <= j < kept_indices(n, pend).len() ==> 0 <= #[trigger] kept_indices(n, pend)[j] < n
                && !pend.contains(kept_indices(n, pend)[j]),
        forall|j1: int, j2: int|
            0 <= j1 < j2 < kept_indices(n, pend).len() ==> kept_indices(n, pend)[j1]
                < kept_indices(n, pend)[j2],
        forall|i: int|
            0 <= i < n && !pend.contains(i) ==> exists|j: int|
                0 <= j < kept_indices(n, pend).len() && #[trigger] kept_indices(n, pend)[j] == i,
    decreases n,
{
    if n > 0 {
        lemma_kept_indices(n - 1, pend);
        let prev = kept_indices(n - 1, pend);
        let cur = kept_indices(n, pend);
        assert forall|j: int| 0 <= j < cur.len() implies 0 <= #[trigger] cur[j] < n
            && !pend.contains(cur[j]) by {
            if j < prev.len() {
                assert(cur[j] == prev[j]);
            }
        }
        assert forall|j1: int, j2: int| 0 <= j1 < j2 < cur.len() implies cur[j1] < cur[j2] by {
            if j2 < prev.len() {
                assert(cur[j1] == prev[j1] && cur[j2] == prev[j2]);
            } else {
                assert(cur[j1] == prev[j1]);
                assert(0 <= prev[j1] < n - 1);
            }
        }
        assert forall|i: int| 0 <= i < n && !pend.contains(i) implies exists|j: int|
            0 <= j < kept_indices(n, pend).len() && #[trigger] kept_indices(n, pend)[j] == i by {
            if i < n - 1 {
                let j = choose|j: int| 0 <= j < prev.len() && #[trigger] prev[j] == i;
                assert(kept_indices(n, pend)[j] == i);
            } else {
                assert(!pend.contains(n - 1));
                assert(kept_indices(n, pend)[cur.len() - 1] == i);
            }
        }
    }
}

/// The pending positions after the element at position `d` is removed from
/// the dense sequence: `d` itself drops out, and every position past `d`
/// shifts down by one.
pub open spec fn adjust_pending(p: Seq<usize>, d: int) -> Seq<usize>
    decreases p.len(),
{
    if p.len() == 0 {
        Seq::empty()
    } else {
        let rest = adjust_pending(p.drop_last(), d);
        let q = p.last();
        if q < d {
            rest.push(q)
        } else if q > d {
            rest.push((q - 1) as usize)
        } else {
            rest
        }
    }
}

/// A sequence holds `x` exactly when dropping its last element leaves `x`
/// behind or the last element is `x`.
proof fn lemma_seq_has_unsnoc(p: Seq<usize>, x: int)
    requires
        p.len() > 0,
    ensures
        seq_has(p, x) <==> (seq_has(p.drop_last(), x) || p.last() == x),
{
    if seq_has(p, x) {
        let j = choose|j: int| 0 <= j < p.len() && #[trigger] p[j] == x;
        if j < p.len() - 1 {
            assert(p.drop_last()[j] == x);
        }
    }
    if seq_has(p.drop_last(), x) {
        let j = choose|j: int| 0 <= j < p.drop_last().len() && #[trigger] p.drop_last()[j] == x;
        assert(p[j] == x);
    }
    if p.last() == x {
        assert(p[p.len() - 1] == x);
    }
}

/// What `adjust_pending` holds, position by position: positions below `d`
/// stay, the position `d` drops out, and each position past `d` appears
/// shifted down by one. Distinct positions stay distinct.
pub proof fn lemma_adjust_pending(p: Seq<usize>, d: int)
    requires
        d >= 0,
    ensures
        forall|x: int|
            #[trigger] seq_has(adjust_pending(p, d), x) <==> ((x < d && seq_has(p, x)) || (x >= d
                && seq_has(p, x + 1))),
        (forall|i: int, j: int| 0 <= i < j < p.len() ==> p[i] != p[j]) ==> (forall|i: int, j: int|
            0 <= i < j < adjust_pending(p, d).len() ==> adjust_pending(p, d)[i] != adjust_pending(
                p,
                d,
            )[j]),
    decreases p.len(),
{
    if p.len() == 0 {
        assert forall|x: int| #[trigger]
            seq_has(adjust_pending(p, d), x) <==> ((x < d && seq_has(p, x)) || (x >= d && seq_has(
                p,
                x + 1,
            ))) by {
            assert(!seq_has(adjust_pending(p, d), x));
            assert(!seq_has(p, x));
            assert(!seq_has(p, x + 1));
        }
    } else {
        let rest0 = p.drop_last();
        lemma_adjust_pending(rest0, d);
        let rest = adjust_pending(rest0, d);
        let q = p.last();
        let cur = adjust_pending(p, d);
        assert forall|x: int| #[trigger]
            seq_has(cur, x) <==> ((x < d && seq_has(p, x)) || (x >= d && seq_has(p, x + 1))) by {
            lemma_seq_has_unsnoc(p, x);
            lemma_seq_has_unsnoc(p, x + 1);
            if q < d {
                assert(cur =~= rest.push(q));
                assert(cur.drop_last() =~= rest && cur.last() == q);
                lemma_seq_has_unsnoc(cur, x);
            } else if q > d {
                assert(cur =~= rest.push((q - 1) as usize));
                assert(cur.drop_last() =~= rest && cur.last() == q - 1);
                lemma_seq_has_unsnoc(cur, x);
            } else {
                assert(cur == rest);
            }
        }
        if forall|i: int, j: int| 0 <= i < j < p.len() ==> p[i] != p[j] {
            assert(forall|i: int, j: int| 0 <= i < j < rest0.len() ==> rest0[i] != rest0[j]);
            if q != d {
                let y: int = if q < d {
                    q as int
                } else {
                    q - 1
                };
                assert(cur =~= rest.push(y as usize));
                assert forall|i: int, j: int| 0 <= i < j < cur.len() implies cur[i] != cur[j] by {
                    if j == cur.len() - 1 {
                        if cur[i] == y {
                            assert(seq_has(rest, y));
                            assert(seq_has(rest0, q as int));
                            let w = choose|w: int|
                                0 <= w < rest0.len() && #[trigger] rest0[w] == q as int;
                            assert(p[w] == q && p[p.len() - 1] == q);
                        }
                    }
                }
            }
        }
    }
}

/// Rebuilds the owner-to-position map of a dense sequence whose owners are
/// pairwise distinct: each stored owner maps to its position, and nothing
/// else is mapped.
fn rebuild_index(comps: &Vec<NameComponent>) -> (m: HashMap<u64, usize>)
    requires
        forall|i: int, j: int|
            0 <= i < j < comps@.len() ==> comps@[i].owner.key_spec()
                != comps@[j].owner.key_spec(),
    ensures
        forall|i: int|
            0 <= i < comps@.len() ==> m@.contains_key(#[trigger] comps@[i].owner.key_spec())
                && m@[comps@[i].owner.key_spec()] == i,
        forall|k: u64| #[trigger]
            m@.contains_key(k) ==> exists|i: int|
                0 <= i < comps@.len() && #[trigger] comps@[i].owner.key_spec() == k,
{
    let mut m: HashMap<u64, usize> = HashMap::new();
    let mut j: usize = 0;
    while j < comps.len()
        invariant
            j <= comps@.len(),
            forall|i1: int, i2: int|
                0 <= i1 < i2 < comps@.len() ==> comps@[i1].owner.key_spec()
                    != comps@[i2].owner.key_spec(),
            forall|i: int|
                0 <= i < j ==> m@.contains_key(#[trigger] comps@[i].owner.key_spec())
                    && m@[comps@[i].owner.key_spec()] == i,
            forall|k: u64| #[trigger]
                m@.contains_key(k) ==> exists|i: int|
                    0 <= i < j && #[trigger] comps@[i].owner.key_spec() == k,
        decreases comps@.len() - j,
    {
        let key = comps[j].owner.key();
        m.insert(key, j);
        proof {
            assert forall|i: int| 0 <= i < j + 1 implies m@.contains_key(
                #[trigger] comps@[i].owner.key_spec(),
            ) && m@[comps@[i].owner.key_spec()] == i by {
                if i < j {
                    assert(comps@[i].owner.key_spec() != key);
                }
            }
            assert forall|k: u64| #[trigger] m@.contains_key(k) implies exists|i: int|
                0 <= i < j + 1 && #[trigger] comps@[i].owner.key_spec() == k by {
                if k == key {
                    assert(comps@[j as int].owner.key_spec() == k);
                }
            }
        }
        j = j + 1;
    }
    m
}

/// Dense storage for one component kind. Components of live entities sit
/// contiguously in `components`; `indir_map` resolves a packed owner id to
/// the owner's position in that dense sequence; `to_delete` holds the
/// positions marked for deferred removal, compacted away by `update` at
/// the tick boundary so that a system iterating the dense sequence never
/// sees elements disappear mid-pass.
#[derive(Debug)]
pub struct NameComponentManager {
    indir_map: HashMap<u64, usize>,
    components: Vec<NameComponent>,
    to_delete: Vec<usize>,
}

impl NameComponentManager {
    /// The dense sequence of stored components, in insertion order.
    pub closed spec fn comps(self) -> Seq<NameComponent> {
        self.components@
    }

    /// The owner-to-position map, keyed by the packed owner id.
    pub closed spec fn index_map(self) -> Map<u64, usize> {
        self.indir_map@
    }

    /// The positions currently marked for deferred deletion.
    pub closed spec fn pending(self) -> Seq<usize> {
        self.to_delete@
    }

    /// Whether position `p` is marked for deferred deletion.
    pub open spec fn pending_has(self, p: int) -> bool {
        seq_has(self.pending(), p)
    }

    /// Whether `owner` currently holds a component in this store.
    pub open spec fn has_spec(self, owner: GenerationalId) -> bool {
        self.index_map().contains_key(owner.key_spec())
    }

    /// The position of `owner`'s component in the dense sequence.
    pub open spec fn pos_of(self, owner: GenerationalId) -> int {
        self.index_map()[owner.key_spec()] as int
    }

    /// The component currently held by `owner`.
    pub open spec fn comp_of(self, owner: GenerationalId) -> NameComponent {
        self.comps()[self.pos_of(owner)]
    }

    /// The set of positions marked for deferred deletion.
    pub open spec fn pend_set(self) -> Set<int> {
        Set::new(|x: int| self.pending_has(x))
    }

    /// The store's invariant: the owner map is a bijection onto the
    /// occupied positions (every mapped owner is stored at its mapped
    /// position, and every stored component is mapped back to its
    /// position), and the pending positions are valid and distinct.
    pub open spec fn wf(self) -> bool {
        &&& forall|k: u64| #[trigger]
            self.index_map().contains_key(k) ==> self.index_map()[k] < self.comps().len()
                && self.comps()[self.index_map()[k] as int].owner.key_spec() == k
        &&& forall|i: int|
            0 <= i < self.comps().len() ==> self.index_map().contains_key(
                #[trigger] self.comps()[i].owner.key_spec(),
            ) && self.index_map()[self.comps()[i].owner.key_spec()] == i
        &&& forall|j: int|
            0 <= j < self.pending().len() ==> (#[trigger] self.pending()[j]) < self.comps().len()
        &&& forall|i: int, j: int|
            0 <= i < j < self.pending().len() ==> self.pending()[i] != self.pending()[j]
    }

    /// Creates an empty store: no components, no owners, nothing pending.
    pub fn new() -> (r: NameComponentManager)
        ensures
            r.wf(),
            r.comps() =~= Seq::<NameComponent>::empty(),
            r.index_map() =~= Map::<u64, usize>::empty(),
            r.pending() =~= Seq::<usize>::empty(),
    {
        NameComponentManager {
            indir_map: HashMap::new(),
            components: Vec::new(),
            to_delete: Vec::new(),
        }
    }

    /// Number of components in the dense sequence.
    pub fn len(&self) -> (r: usize)
        ensures
            r == self.comps().len(),
    {
        self.components.len()
    }

    /// The component at dense position `i`, for in-order iteration.
    pub fn get_at(&self, i: usize) -> (r: &NameComponent)
        requires
            i < self.comps().len(),
        ensures
            *r == self.comps()[i as int],
    {
        &self.components[i]
    }

    /// Reports whether `owner` holds a component in this store.
    pub fn has_component(&self, owner: GenerationalId) -> (r: bool)
        ensures
            r == self.has_spec(owner),
    {
        let key = owner.key();
        self.indir_map.contains_key(&key)
    }

    /// Resolves `owner` to its component, or `None` if it holds none. The
    /// component found is stored under exactly this owner id.
    pub fn fetch(&self, owner: GenerationalId) -> (r: Option<&NameComponent>)
        requires
            self.wf(),
        ensures
            match r {
                Some(c) => self.has_spec(owner) && *c == self.comp_of(owner) && c.owner == owner,
                None => !self.has_spec(owner),
            },
    {
        let key = owner.key();
        match self.indir_map.get(&key) {
            Some(i) => {
                let idx: usize = *i;
                proof {
                    assert(self.index_map().contains_key(key));
                    assert(self.index_map()[key] == idx);
                    assert(idx < self.comps().len());
                    lemma_key_injective(self.comps()[idx as int].owner, owner);
                }
                Some(&self.components[idx])
            },
            None => None,
        }
    }

    /// Resolves `owner` to a mutable borrow of its component, or `None` if
    /// it holds none. Writing through the borrow must leave the
    /// component's owner as it is for the store to stay well-formed.
    #[verifier::rlimit(50)]
    pub fn fetch_mut(&mut self, owner: GenerationalId) -> (r: Option<&mut NameComponent>)
        requires
            old(self).wf(),
        ensures
            r is Some <==> old(self).has_spec(owner),
            r is None ==> *final(self) == *old(self),
            r matches Some(m) ==> *m == old(self).comp_of(owner) && m.owner == owner,
            r matches Some(m) ==> final(self).comps() == old(self).comps().update(
                old(self).pos_of(owner),
                *final(m),
            ),
            r is Some ==> final(self).index_map() == old(self).index_map() && final(self).pending()
                == old(self).pending(),
            r matches Some(m) ==> old(self).pos_of(owner) < old(self).comps().len(),
    {
        let key = owner.key();
        let idx: usize;
        match self.indir_map.get(&key) {
            Some(i) => {
                idx = *i;
            },
            None => {
                return None;
            },
        }
        proof {
            assert(self.index_map().contains_key(key));
            assert(self.index_map()[key] == idx);
            assert(idx < self.comps().len());
            lemma_key_injective(self.comps()[idx as int].owner, owner);
        }
        Some(&mut self.components[idx])
    }

    /// Law: overwriting one stored component in place with a value that
    /// keeps its owner preserves the store's well-formedness. This is what
    /// a caller of `fetch_mut` relies on after writing through the borrow.
    pub proof fn lemma_overwrite_preserves_wf(
        m0: NameComponentManager,
        m1: NameComponentManager,
        d: int,
        c: NameComponent,
    )
        requires
            m0.wf(),
            0 <= d < m0.comps().len(),
            c.owner == m0.comps()[d].owner,
            m1.comps() == m0.comps().update(d, c),
            m1.index_map() == m0.index_map(),
            m1.pending() == m0.pending(),
        ensures
            m1.wf(),
    {
        assert forall|k: u64| #[trigger] m1.index_map().contains_key(k) implies m1.index_map()[k]
            < m1.comps().len() && m1.comps()[m1.index_map()[k] as int].owner.key_spec() == k by {
            assert(m0.index_map().contains_key(k));
            assert(m0.comps()[m0.index_map()[k] as int].owner.key_spec() == k);
        }
        assert forall|i: int| 0 <= i < m1.comps().len() implies m1.index_map().contains_key(
            #[trigger] m1.comps()[i].owner.key_spec(),
        ) && m1.index_map()[m1.comps()[i].owner.key_spec()] == i by {
            assert(m0.index_map().contains_key(m0.comps()[i].owner.key_spec()));
            assert(m1.comps()[i].owner == m0.comps()[i].owner);
        }
    }

    /// Stores `value` for `owner`, recording `owner` as the component's
    /// owner: appends it to the dense sequence and maps the owner to the
    /// new position. Fails with `DuplicateComponent`, changing nothing, if
    /// the owner already holds a component of this kind.
    pub fn insert(&mut self, owner: GenerationalId, value: NameComponent) -> (r: Result<
        (),
        EcsError,
    >)
        requires
            old(self).wf(),
        ensures
            final(self).wf(),
            old(self).has_spec(owner) ==> r == Err::<(), EcsError>(EcsError::DuplicateComponent)
                && *final(self) == *old(self),
            !old(self).has_spec(owner) ==> {
                &&& r == Ok::<(), EcsError>(())
                &&& final(self).comps() == old(self).comps().push(
                    NameComponent { owner, ..value },
                )
                &&& final(self).index_map() == old(self).index_map().insert(
                    owner.key_spec(),
                    old(self).comps().len() as usize,
                )
                &&& final(self).pending() == old(self).pending()
            },
    {
        let key = owner.key();
        if self.indir_map.contains_key(&key) {
            return Err(EcsError::DuplicateComponent);
        }
        let ind = self.components.len();
        let mut value = value;
        value.set_owner(owner);
        self.components.push(value);
        self.indir_map.insert(key, ind);
        proof {
            assert forall|k: u64| #[trigger] self.index_map().contains_key(k) implies self.index_map()[k]
                < self.comps().len() && self.comps()[self.index_map()[k] as int].owner.key_spec()
                == k by {
                if k != owner.key_spec() {
                    assert(old(self).index_map().contains_key(k));
                }
            }
            assert forall|i: int| 0 <= i < self.comps().len() implies self.index_map().contains_key(
                #[trigger] self.comps()[i].owner.key_spec(),
            ) && self.index_map()[self.comps()[i].owner.key_spec()] == i by {
                if i < old(self).comps().len() {
                    assert(old(self).index_map().contains_key(
                        old(self).comps()[i].owner.key_spec(),
                    ));
                    assert(self.comps()[i].owner.key_spec() != owner.key_spec());
                }
            }
            assert(self.pending() == old(self).pending());
            assert forall|j: int| 0 <= j < self.pending().len() implies (self.pending()[j])
                < self.comps().len() by {
                assert(old(self).pending()[j] < old(self).comps().len());
            }
            assert forall|i: int, j: int| 0 <= i < j < self.pending().len() implies self.pending()[i]
                != self.pending()[j] by {
                assert(old(self).pending()[i] != old(self).pending()[j]);
            }
        }
        Ok(())
    }

    /// Marks `owner`'s component for deferred deletion: the component
    /// stays fetchable until the next `update` compacts the store. Fails
    /// with `MissingComponent`, changing nothing, if the owner holds none.
    /// A position already marked is not marked twice.
    pub fn delete(&mut self, owner: GenerationalId) -> (r: Result<(), EcsError>)
        requires
            old(self).wf(),
        ensures
            final(self).wf(),
            !old(self).has_spec(owner) ==> r == Err::<(), EcsError>(EcsError::MissingComponent)
                && *final(self) == *old(self),
            old(self).has_spec(owner) ==> {
                &&& r == Ok::<(), EcsError>(())
                &&& final(self).comps() == old(self).comps()
                &&& final(self).index_map() == old(self).index_map()
                &&& final(self).pending() == if old(self).pending_has(old(self).pos_of(owner)) {
                    old(self).pending()
                } else {
                    old(self).pending().push(old(self).pos_of(owner) as usize)
                }
                &&& final(self).pending_has(old(self).pos_of(owner))
            },
    {
        let key = owner.key();
        let pos = match self.indir_map.get(&key) {
            Some(i) => *i,
            None => {
                return Err(EcsError::MissingComponent);
            },
        };
        proof {
            assert(self.index_map().contains_key(key));
            assert(self.index_map()[key] == pos);
        }
        let mut j: usize = 0;
        let mut found = false;
        while j < self.to_delete.len()
            invariant
                j <= self.to_delete.len(),
                found <==> exists|i: int| 0 <= i < j && self.to_delete@[i] == pos,
            decreases self.to_delete.len() - j,
        {
            if self.to_delete[j] == pos {
                found = true;
            }
            j = j + 1;
        }
        if !found {
            self.to_delete.push(pos);
            proof {
                assert(self.pending()[self.pending().len() - 1] == pos);
                assert forall|a: int, b: int| 0 <= a < b < self.pending().len() implies self.pending()[a]
                    != self.pending()[b] by {
                    if b < self.pending().len() - 1 {
                        assert(old(self).pending()[a] != old(self).pending()[b]);
                    } else {
                        assert(self.pending()[a] == old(self).pending()[a]);
                    }
                }
            }
        } else {
            proof {
                assert(self.pending_has(old(self).pos_of(owner)));
            }
        }
        proof {
            assert(self.pending_has(old(self).pos_of(owner)));
            assert forall|j: int| 0 <= j < self.pending().len() implies (self.pending()[j])
                < self.comps().len() by {
                if j < old(self).pending().len() {
                    assert(old(self).pending()[j] < old(self).comps().len());
                }
            }
        }
        Ok(())
    }

    /// Removes `owner`'s component synchronously: the entry leaves the
    /// dense sequence at once, every owner stored past it moves down one
    /// position, and any pending deferred deletions pointing past the
    /// removed position are adjusted so a later `update` still removes the
    /// components they were recorded for. Fails with `MissingComponent`,
    /// changing nothing, if the owner holds none.
    pub fn delete_now(&mut self, owner: GenerationalId) -> (r: Result<(), EcsError>)
        requires
            old(self).wf(),
        ensures
            final(self).wf(),
            !old(self).has_spec(owner) ==> r == Err::<(), EcsError>(EcsError::MissingComponent)
                && *final(self) == *old(self),
            old(self).has_spec(owner) ==> {
                let d = old(self).pos_of(owner);
                &&& r == Ok::<(), EcsError>(())
                &&& final(self).comps() == old(self).comps().remove(d)
                &&& !final(self).has_spec(owner)
                &&& forall|k: u64|
                    #[trigger] final(self).index_map().contains_key(k) <==> (old(self).index_map().contains_key(k) && k != owner.key_spec())
                &&& forall|k: u64|
                    #[trigger] final(self).index_map().contains_key(k) ==> final(self).index_map()[k] == if old(self).index_map()[k] < d {
                        old(self).index_map()[k] as int
                    } else {
                        old(self).index_map()[k] - 1
                    }
                &&& forall|x: int|
                    #[trigger] final(self).pending_has(x) <==> ((x < d && old(self).pending_has(x))
                        || (x >= d && old(self).pending_has(x + 1)))
            },
    {
        let key = owner.key();
        let d: usize = match self.indir_map.get(&key) {
            Some(i) => *i,
            None => {
                return Err(EcsError::MissingComponent);
            },
        };
        proof {
            assert(self.index_map().contains_key(key));
            assert(self.index_map()[key] == d);
            assert(d < self.comps().len());
        }
        let ghost old_comps = self.components@;
        let ghost old_pend = self.to_delete@;
        self.components.remove(d);
        // every position past `d` in the pending list shifts down by one;
        // `d` itself, if pending, is dropped: its component is gone already
        let mut newp: Vec<usize> = Vec::new();
        let mut i: usize = 0;
        while i < self.to_delete.len()
            invariant
                i <= self.to_delete@.len(),
                self.to_delete@ == old_pend,
                newp@ == adjust_pending(old_pend.subrange(0, i as int), d as int),
            decreases self.to_delete@.len() - i,
        {
            let q = self.to_delete[i];
            let ghost prefix = old_pend.subrange(0, i as int);
            if q < d {
                newp.push(q);
            } else if q > d {
                newp.push(q - 1);
            }
            proof {
                assert(old_pend.subrange(0, i + 1 as int).drop_last() =~= prefix);
                assert(old_pend.subrange(0, i + 1 as int).last() == q);
                assert(newp@ =~= adjust_pending(old_pend.subrange(0, i + 1 as int), d as int));
            }
            i = i + 1;
        }
        proof {
            assert(old_pend.subrange(0, old_pend.len() as int) =~= old_pend);
        }
        self.to_delete = newp;
        // the owners left in the dense sequence are still pairwise distinct,
        // so the owner map can be rebuilt from it
        proof {
            assert forall|i1: int, i2: int| 0 <= i1 < i2 < self.components@.len() implies
                self.components@[i1].owner.key_spec() != self.components@[i2].owner.key_spec() by {
                let o1: int = if i1 < d {
                    i1
                } else {
                    i1 + 1
                };
                let o2: int = if i2 < d {
                    i2
                } else {
                    i2 + 1
                };
                assert(self.components@[i1] == old_comps[o1]);
                assert(self.components@[i2] == old_comps[o2]);
                assert(old(self).index_map()[old_comps[o1].owner.key_spec()] == o1);
                assert(old(self).index_map()[old_comps[o2].owner.key_spec()] == o2);
            }
        }
        let m = rebuild_index(&self.components);
        self.indir_map = m;
        proof {
            lemma_adjust_pending(old_pend, d as int);
            let fin = *self;
            let oldm = *old(self);
            // the rebuilt map contains exactly the surviving owners, at
            // their shifted positions
            assert forall|k: u64| #[trigger]
                fin.index_map().contains_key(k) <==> (oldm.index_map().contains_key(k) && k
                    != owner.key_spec()) by {
                if oldm.index_map().contains_key(k) && k != owner.key_spec() {
                    let p = oldm.index_map()[k] as int;
                    assert(oldm.comps()[p].owner.key_spec() == k);
                    assert(p != d);
                    let np: int = if p < d {
                        p
                    } else {
                        p - 1
                    };
                    assert(fin.comps()[np] == oldm.comps()[p]);
                    assert(fin.index_map().contains_key(fin.comps()[np].owner.key_spec()));
                }
                if fin.index_map().contains_key(k) {
                    let j = choose|j: int|
                        0 <= j < fin.comps().len() && #[trigger] fin.comps()[j].owner.key_spec()
                            == k;
                    let oj: int = if j < d {
                        j
                    } else {
                        j + 1
                    };
                    assert(fin.comps()[j] == old_comps[oj]);
                    assert(oldm.index_map().contains_key(k));
                    assert(oldm.index_map()[k] == oj);
                    assert(oj != d);
                }
            }
            assert forall|k: u64| #[trigger] fin.index_map().contains_key(k) implies
                fin.index_map()[k] == (if oldm.index_map()[k] < d as int {
                oldm.index_map()[k] as int
            } else {
                oldm.index_map()[k] - 1
            }) by {
                let p = oldm.index_map()[k] as int;
                assert(oldm.comps()[p].owner.key_spec() == k);
                assert(p != d);
                let np: int = if p < d {
                    p
                } else {
                    p - 1
                };
                assert(fin.comps()[np] == oldm.comps()[p]);
                assert(fin.index_map()[fin.comps()[np].owner.key_spec()] == np);
            }
            assert(!fin.has_spec(owner));
            assert forall|x: int| #[trigger]
                fin.pending_has(x) <==> ((x < d as int && oldm.pending_has(x)) || (x >= d as int
                    && oldm.pending_has(x + 1))) by {
                assert(fin.pending_has(x) == seq_has(adjust_pending(old_pend, d as int), x));
                assert(oldm.pending_has(x) == seq_has(old_pend, x));
                assert(oldm.pending_has(x + 1) == seq_has(old_pend, x + 1));
            }
            // well-formedness: the rebuilt map is bijective by construction,
            // and the adjusted pending positions are valid and distinct
            assert forall|j: int| 0 <= j < fin.pending().len() implies (fin.pending()[j])
                < fin.comps().len() by {
                assert(seq_has(fin.pending(), fin.pending()[j] as int));
                let x = fin.pending()[j] as int;
                if x < d as int {
                    assert(seq_has(old_pend, x));
                    let w = choose|w: int| 0 <= w < old_pend.len() && #[trigger] old_pend[w] == x;
                    assert(oldm.pending()[w] < oldm.comps().len());
                } else {
                    assert(seq_has(old_pend, x + 1));
                    let w = choose|w: int|
                        0 <= w < old_pend.len() && #[trigger] old_pend[w] == x + 1;
                    assert(oldm.pending()[w] < oldm.comps().len());
                }
            }
        }
        Ok(())
    }

    /// Flushes the deferred deletions: every component whose position is
    /// pending leaves the dense sequence in one compaction pass that keeps
    /// the survivors in order, the owner map is rebuilt to match, and the
    /// pending list is cleared. Owners that were not marked keep exactly
    /// the components they had; owners that were marked are gone.
    pub fn update(&mut self)
        requires
            old(self).wf(),
        ensures
            final(self).wf(),
            final(self).comps() == survivors(old(self).comps(), old(self).pend_set()),
            final(self).pending() =~= Seq::<usize>::empty(),
            forall|o: GenerationalId|
                (old(self).has_spec(o) && !old(self).pending_has(old(self).pos_of(o))) ==> (
                #[trigger] final(self).has_spec(o) && final(self).comp_of(o) == old(self).comp_of(
                    o,
                )),
            forall|o: GenerationalId|
                (old(self).has_spec(o) && old(self).pending_has(old(self).pos_of(o))) ==> !(
                #[trigger] final(self).has_spec(o)),
            forall|o: GenerationalId|
                !old(self).has_spec(o) ==> !(#[trigger] final(self).has_spec(o)),
    {
        let ghost old_comps = self.components@;
        let ghost pend = old(self).pend_set();
        let total: usize = self.components.len();
        let ghost n = old_comps.len() as int;
        proof {
            assert(n == total as int);
            lemma_kept_indices(n, pend);
        }
        let mut out: Vec<NameComponent> = Vec::new();
        let mut i: usize = 0;
        while self.components.len() > 0
            invariant
                old_comps == old(self).comps(),
                pend == old(self).pend_set(),
                n == old_comps.len() as int,
                n == total as int,
                self.to_delete@ == old(self).pending(),
                i + self.components@.len() == n,
                self.components@ == old_comps.subrange(i as int, n),
                out@ =~= kept_indices(i as int, pend).map_values(|k: int| old_comps[k]),
            decreases self.components@.len(),
        {
            let ghost prev_rest = self.components@;
            let c = self.components.remove(0);
            proof {
                assert(c == old_comps[i as int]);
                assert(prev_rest.remove(0) =~= old_comps.subrange(i + 1 as int, n));
            }
            let pending_here = position_pending(&self.to_delete, i);
            if !pending_here {
                out.push(c);
            }
            proof {
                assert(seq_has(old(self).pending(), i as int) == pend.contains(i as int));
                assert(out@ =~= kept_indices(i + 1 as int, pend).map_values(
                    |k: int| old_comps[k],
                ));
            }
            i = i + 1;
        }
        self.components = out;
        self.to_delete = Vec::new();
        proof {
            assert(self.comps() =~= survivors(old(self).comps(), pend));
            // surviving owners stay pairwise distinct, since they come from
            // distinct positions of the old sequence
            let kept = kept_indices(n, pend);
            assert forall|i1: int, i2: int| 0 <= i1 < i2 < self.components@.len() implies
                self.components@[i1].owner.key_spec() != self.components@[i2].owner.key_spec() by {
                assert(self.components@[i1] == old_comps[kept[i1]]);
                assert(self.components@[i2] == old_comps[kept[i2]]);
                assert(kept[i1] < kept[i2]);
                assert(old(self).index_map()[old_comps[kept[i1]].owner.key_spec()] == kept[i1]);
                assert(old(self).index_map()[old_comps[kept[i2]].owner.key_spec()] == kept[i2]);
            }
        }
        let m = rebuild_index(&self.components);
        self.indir_map = m;
        proof {
            let fin = *self;
            let oldm = *old(self);
            let kept = kept_indices(n, pend);
            assert forall|o: GenerationalId|
                (oldm.has_spec(o) && !oldm.pending_has(oldm.pos_of(o))) implies (#[trigger] fin.has_spec(
                o,
            ) && fin.comp_of(o) == oldm.comp_of(o)) by {
                let p = oldm.pos_of(o);
                assert(oldm.comps()[p].owner.key_spec() == o.key_spec());
                assert(!pend.contains(p));
                let j = choose|j: int| 0 <= j < kept.len() && #[trigger] kept[j] == p;
                assert(fin.comps()[j] == old_comps[p]);
                assert(fin.index_map().contains_key(fin.comps()[j].owner.key_spec()));
                assert(fin.index_map()[o.key_spec()] == j);
            }
            assert forall|o: GenerationalId|
                (oldm.has_spec(o) && oldm.pending_has(oldm.pos_of(o))) implies !(#[trigger] fin.has_spec(
                o,
            )) by {
                if fin.has_spec(o) {
                    let j = choose|j: int|
                        0 <= j < fin.comps().len() && #[trigger] fin.comps()[j].owner.key_spec()
                            == o.key_spec();
                    assert(fin.comps()[j] == old_comps[kept[j]]);
                    assert(!pend.contains(kept[j]));
                    assert(oldm.index_map()[old_comps[kept[j]].owner.key_spec()] == kept[j]);
                    assert(oldm.pos_of(o) == kept[j]);
                }
            }
            assert forall|o: GenerationalId| !oldm.has_spec(o) implies !(#[trigger] fin.has_spec(
                o,
            )) by {
                if fin.has_spec(o) {
                    let j = choose|j: int|
                        0 <= j < fin.comps().len() && #[trigger] fin.comps()[j].owner.key_spec()
                            == o.key_spec();
                    assert(fin.comps()[j] == old_comps[kept[j]]);
                    assert(oldm.index_map().contains_key(old_comps[kept[j]].owner.key_spec()));
                }
            }
        }
    }
}

/// A component store of any kind, tagged by the kind it stores. The
/// registry holds these so heterogeneous stores can live in one container;
/// matching on the tag recovers the typed store, and the kind-agnostic
/// methods below behave exactly like the typed ones they forward to,
/// differing only in not taking or returning the concrete component type.
#[derive(Debug)]
pub enum ManagerBox {
    Name(NameComponentManager),
}

impl ManagerBox {
    /// The kind of component this store holds.
    pub open spec fn kind_spec(&self) -> ComponentKind {
        match self {
            ManagerBox::Name(_) => ComponentKind::Name,
        }
    }

    /// The typed store behind the tag.
    pub open spec fn inner(&self) -> NameComponentManager {
        match self {
            ManagerBox::Name(m) => *m,
        }
    }

    /// The adapter is well-formed when the store behind it is.
    pub open spec fn wf(&self) -> bool {
        self.inner().wf()
    }

    /// Whether `owner` holds a component in the store behind the tag.
    pub open spec fn has_spec(&self, owner: GenerationalId) -> bool {
        self.inner().has_spec(owner)
    }

    /// The component `owner` holds in the store behind the tag.
    pub open spec fn comp_of(&self, owner: GenerationalId) -> NameComponent {
        self.inner().comp_of(owner)
    }

    /// Reports which component kind this store holds.
    pub fn kind(&self) -> (r: ComponentKind)
        ensures
            r == self.kind_spec(),
    {
        match self {
            ManagerBox::Name(_) => ComponentKind::Name,
        }
    }

    /// Kind-agnostic form of `has_component`.
    pub fn general_has_component(&self, owner: GenerationalId) -> (r: bool)
        ensures
            r == self.has_spec(owner),
    {
        match self {
            ManagerBox::Name(m) => m.has_component(owner),
        }
    }

    /// Kind-agnostic form of `fetch` that hands out an independent,
    /// type-erased duplicate of the component, or `None` if the owner
    /// holds none.
    pub fn fetch_dyn(&self, owner: GenerationalId) -> (r: Option<ComponentBox>)
        requires
            self.wf(),
        ensures
            match r {
                Some(cb) => self.has_spec(owner) && (cb matches ComponentBox::Name(c) && c@
                    == self.comp_of(owner)@),
                None => !self.has_spec(owner),
            },
    {
        match self {
            ManagerBox::Name(m) => match m.fetch(owner) {
                Some(c) => Some(c.dynamic_clone()),
                None => None,
            },
        }
    }

    /// Kind-agnostic form of the deferred `delete`: behaves exactly as the
    /// typed one.
    pub fn general_delete(&mut self, owner: GenerationalId) -> (r: Result<(), EcsError>)
        requires
            old(self).wf(),
        ensures
            final(self).wf(),
            final(self).kind_spec() == old(self).kind_spec(),
            !old(self).has_spec(owner) ==> r == Err::<(), EcsError>(EcsError::MissingComponent)
                && *final(self) == *old(self),
            old(self).has_spec(owner) ==> {
                &&& r == Ok::<(), EcsError>(())
                &&& final(self).inner().comps() == old(self).inner().comps()
                &&& final(self).inner().index_map() == old(self).inner().index_map()
                &&& final(self).inner().pending_has(old(self).inner().pos_of(owner))
                &&& forall|x: int|
                    #[trigger] final(self).inner().pending_has(x) <==> (old(self).inner().pending_has(x) || x == old(self).inner().pos_of(owner))
            },
    {
        match self {
            ManagerBox::Name(m) => {
                let r = m.delete(owner);
                proof {
                    if old(self).has_spec(owner) {
                        let oldp = old(self).inner().pending();
                        let d = old(self).inner().pos_of(owner);
                        assert forall|x: int| #[trigger]
                            final(self).inner().pending_has(x) <==> (seq_has(oldp, x) || x
                                == d) by {
                            if !seq_has(oldp, d) {
                                lemma_seq_has_unsnoc(oldp.push(d as usize), x);
                                assert(oldp.push(d as usize).drop_last() =~= oldp);
                            }
                        }
                    }
                }
                r
            },
        }
    }

    /// Kind-agnostic form of the synchronous `delete_now`: behaves exactly
    /// as the typed one.
    pub fn general_delete_now(&mut self, owner: GenerationalId) -> (r: Result<(), EcsError>)
        requires
            old(self).wf(),
        ensures
            final(self).wf(),
            final(self).kind_spec() == old(self).kind_spec(),
            !old(self).has_spec(owner) ==> r == Err::<(), EcsError>(EcsError::MissingComponent)
                && *final(self) == *old(self),
            old(self).has_spec(owner) ==> {
                let d = old(self).inner().pos_of(owner);
                &&& r == Ok::<(), EcsError>(())
                &&& final(self).inner().comps() == old(self).inner().comps().remove(d)
                &&& !final(self).has_spec(owner)
                &&& forall|o: GenerationalId|
                    o.key_spec() != owner.key_spec() ==> (#[trigger] final(self).has_spec(o)
                        <==> old(self).has_spec(o))
                &&& forall|o: GenerationalId|
                    o.key_spec() != owner.key_spec() && old(self).has_spec(o) ==> #[trigger] final(self).comp_of(o) == old(self).comp_of(o)
                &&& forall|x: int|
                    #[trigger] final(self).inner().pending_has(x) <==> ((x < d && old(self).inner().pending_has(x)) || (x >= d && old(self).inner().pending_has(x + 1)))
            },
    {
        match self {
            ManagerBox::Name(m) => {
                let r = m.delete_now(owner);
                proof {
                    if old(self).has_spec(owner) {
                        let oldm = old(self).inner();
                        let fin = final(self).inner();
                        let d = oldm.pos_of(owner);
                        assert forall|o: GenerationalId|
                            o.key_spec() != owner.key_spec() implies (#[trigger] fin.has_spec(o)
                            <==> oldm.has_spec(o)) by {
                            assert(fin.index_map().contains_key(o.key_spec())
                                <==> oldm.index_map().contains_key(o.key_spec()) && o.key_spec()
                                != owner.key_spec());
                        }
                        assert forall|o: GenerationalId|
                            o.key_spec() != owner.key_spec() && oldm.has_spec(o) implies #[trigger] fin.comp_of(
                            o,
                        ) == oldm.comp_of(o) by {
                            let p = oldm.pos_of(o);
                            assert(oldm.comps()[p].owner.key_spec() == o.key_spec());
                            assert(p != d);
                            assert(fin.index_map().contains_key(o.key_spec()));
                            assert(fin.index_map()[o.key_spec()] == if oldm.index_map()[o.key_spec()]
                                < d {
                                oldm.index_map()[o.key_spec()] as int
                            } else {
                                oldm.index_map()[o.key_spec()] - 1
                            });
                            if p < d {
                                assert(fin.pos_of(o) == p);
                                assert(fin.comps()[p] == oldm.comps()[p]);
                            } else {
                                assert(fin.pos_of(o) == p - 1);
                                assert(fin.comps()[p - 1] == oldm.comps()[p]);
                            }
                        }
                    }
                }
                r
            },
        }
    }

    /// Kind-agnostic form of `update`: behaves exactly as the typed one.
    pub fn general_update(&mut self)
        requires
            old(self).wf(),
        ensures
            final(self).wf(),
            final(self).kind_spec() == old(self).kind_spec(),
            final(self).inner().comps() == survivors(
                old(self).inner().comps(),
                old(self).inner().pend_set(),
            ),
            final(self).inner().pending() =~= Seq::<usize>::empty(),
            forall|o: GenerationalId|
                (old(self).has_spec(o) && !old(self).inner().pending_has(
                    old(self).inner().pos_of(o),
                )) ==> (#[trigger] final(self).has_spec(o) && final(self).comp_of(o) == old(self).comp_of(o)),
            forall|o: GenerationalId|
                (old(self).has_spec(o) && old(self).inner().pending_has(
                    old(self).inner().pos_of(o),
                )) ==> !(#[trigger] final(self).has_spec(o)),
            forall|o: GenerationalId|
                !old(self).has_spec(o) ==> !(#[trigger] final(self).has_spec(o)),
    {
        match self {
            ManagerBox::Name(m) => m.update(),
        }
    }
}

/// How a store looks after `general_delete_now(owner)`: unchanged if the
/// owner held nothing; otherwise the owner's entry has left the dense
/// sequence, every other owner keeps its component, and the pending
/// positions have shifted around the removed one.
pub open spec fn deleted_now_rel(m0: ManagerBox, m1: ManagerBox, owner: GenerationalId) -> bool {
    &&& m1.wf()
    &&& m1.kind_spec() == m0.kind_spec()
    &&& !m0.has_spec(owner) ==> m1 == m0
    &&& m0.has_spec(owner) ==> {
        let d = m0.inner().pos_of(owner);
        &&& m1.inner().comps() == m0.inner().comps().remove(d)
        &&& !m1.has_spec(owner)
        &&& forall|o: GenerationalId|
            o.key_spec() != owner.key_spec() ==> (#[trigger] m1.has_spec(o) <==> m0.has_spec(o))
        &&& forall|o: GenerationalId|
            o.key_spec() != owner.key_spec() && m0.has_spec(o) ==> #[trigger] m1.comp_of(o)
                == m0.comp_of(o)
        &&& forall|x: int|
            #[trigger] m1.inner().pending_has(x) <==> ((x < d && m0.inner().pending_has(x)) || (x
                >= d && m0.inner().pending_has(x + 1)))
    }
}

/// How a store looks after `general_update`: the pending positions have
/// been compacted away, every owner that was not marked keeps exactly its
/// component, and every owner that was marked is gone.
pub open spec fn updated_rel(m0: ManagerBox, m1: ManagerBox) -> bool {
    &&& m1.wf()
    &&& m1.kind_spec() == m0.kind_spec()
    &&& m1.inner().comps() == survivors(m0.inner().comps(), m0.inner().pend_set())
    &&& m1.inner().pending() =~= Seq::<usize>::empty()
    &&& forall|o: GenerationalId|
        (m0.has_spec(o) && !m0.inner().pending_has(m0.inner().pos_of(o))) ==> (#[trigger] m1.has_spec(
            o,
        ) && m1.comp_of(o) == m0.comp_of(o))
    &&& forall|o: GenerationalId|
        (m0.has_spec(o) && m0.inner().pending_has(m0.inner().pos_of(o))) ==> !(#[trigger] m1.has_spec(
            o,
        ))
    &&& forall|o: GenerationalId| !m0.has_spec(o) ==> !(#[trigger] m1.has_spec(o))
}

/// Reports whether the position `x` occurs in `p`.
fn position_pending(p: &Vec<usize>, x: usize) -> (r: bool)
    ensures
        r == seq_has(p@, x as int),
{
    let mut j: usize = 0;
    let mut found = false;
    while j < p.len()
        invariant
            j <= p@.len(),
            found <==> exists|i: int| 0 <= i < j && p@[i] == x as int,
        decreases p@.len() - j,
    {
        if p[j] == x {
            found = true;
        }
        j = j + 1;
    }
    found
}

} // verus!
