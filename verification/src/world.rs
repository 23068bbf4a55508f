use vstd::prelude::*;
use std::collections::VecDeque;
use crate::component::{ComponentBox, ComponentBoxView, ComponentKind};
use crate::component_manager::{ManagerBox, deleted_now_rel, updated_rel};
use crate::entity::Entity;
use crate::error::EcsError;
use crate::generational_id::GenerationalId;

verus! {

broadcast use vstd::std_specs::vecdeque::group_vec_dequeue_axioms;

/// The values of the components that `owner` holds across the given
/// stores, in store order: what a snapshot of the entity carries.
pub open spec fn snapshot_of(mgrs: Seq<ManagerBox>, owner: GenerationalId) -> Seq<ComponentBoxView>
    decreases mgrs.len(),
{
    if mgrs.len() == 0 {
        Seq::empty()
    } else {
        let rest = snapshot_of(mgrs.drop_last(), owner);
        let m = mgrs.last();
        if m.has_spec(owner) {
            rest.push(ComponentBoxView::Name(m.comp_of(owner)@))
        } else {
            rest
        }
    }
}

/// The entity store: every game object and its components. Slot `i` of
/// `entities` always holds the entity whose id has index `i`; the stored
/// generation is the authoritative current generation of the slot, with 0
/// the dead marker. `free_queue` recycles slots front-first, so the most
/// recently freed slot is the next one allocated. The manager registry
/// binds each component kind to its store.
///
/// The store has no internal locking: it is driven by a single logical
/// owner per tick. Shared and exclusive access to one kind's manager go
/// through borrows of the registry entry, whose exclusivity ends with the
/// borrow's scope; access to different kinds never contends.
pub struct World {
    entities: Vec<Entity>,
    free_queue: VecDeque<GenerationalId>,
    component_managers: Vec<ManagerBox>,
    quit: bool,
}

impl World {
    /// The dense slot sequence; slot `i` belongs to index `i`.
    pub closed spec fn ents(self) -> Seq<Entity> {
        self.entities@
    }

    /// The recycling queue, front first.
    pub closed spec fn free(self) -> Seq<GenerationalId> {
        self.free_queue@
    }

    /// The registered component stores, in registration order.
    pub closed spec fn managers(self) -> Seq<ManagerBox> {
        self.component_managers@
    }

    /// Whether the driver has been asked to stop.
    pub closed spec fn quit_spec(self) -> bool {
        self.quit
    }

    /// An id is alive exactly when it is in range and the slot still
    /// carries its generation.
    pub open spec fn alive_spec(self, id: GenerationalId) -> bool {
        id.index < self.ents().len() && self.ents()[id.index as int].id.generation
            == id.generation
    }

    /// Whether a store for `kind` is registered.
    pub open spec fn has_manager(self, kind: ComponentKind) -> bool {
        exists|j: int|
            0 <= j < self.managers().len() && (#[trigger] self.managers()[j]).kind_spec() == kind
    }

    /// The registry position of the store for `kind`.
    pub open spec fn manager_idx(self, kind: ComponentKind) -> int {
        choose|j: int|
            0 <= j < self.managers().len() && (#[trigger] self.managers()[j]).kind_spec() == kind
    }

    /// The registered store for `kind`.
    pub open spec fn mgr(self, kind: ComponentKind) -> ManagerBox {
        self.managers()[self.manager_idx(kind)]
    }

    /// The store's invariant: the free queue is never empty and names only
    /// slots up to the end of the array, freed slots always recycle to a
    /// generation of at least 1, every slot holds its own index, every
    /// registered manager is well-formed, and no kind is registered twice.
    pub open spec fn wf(self) -> bool {
        &&& self.free().len() >= 1
        &&& forall|i: int| 0 <= i < self.ents().len() ==> (#[trigger] self.ents()[i].id.index) == i
        &&& forall|i: int|
            0 <= i < self.free().len() ==> (#[trigger] self.free()[i].index) <= self.ents().len()
        &&& forall|i: int|
            0 <= i < self.free().len() ==> (#[trigger] self.free()[i].generation) >= 1
        &&& forall|j: int| 0 <= j < self.managers().len() ==> (#[trigger] self.managers()[j]).wf()
        &&& forall|j1: int, j2: int|
            0 <= j1 < j2 < self.managers().len() ==> self.managers()[j1].kind_spec()
                != self.managers()[j2].kind_spec()
    }

    /// Creates an empty world whose free queue already offers slot 0 at
    /// generation 1.
    pub fn new() -> (r: World)
        ensures
            r.wf(),
            r.ents() =~= Seq::<Entity>::empty(),
            r.free() =~= seq![GenerationalId { index: 0, generation: 1 }],
            r.managers() =~= Seq::<ManagerBox>::empty(),
            !r.quit_spec(),
    {
        let mut free: VecDeque<GenerationalId> = VecDeque::new();
        free.push_front(GenerationalId::new(0, 1));
        World {
            entities: Vec::new(),
            free_queue: free,
            component_managers: Vec::new(),
            quit: false,
        }
    }

    /// Reports whether `id` is a live handle: in range and of the slot's
    /// current generation.
    pub fn is_alive(&self, id: GenerationalId) -> (r: bool)
        ensures
            r == self.alive_spec(id),
    {
        if (id.index as usize) < self.entities.len() {
            self.entities[id.index as usize].id.generation == id.generation
        } else {
            false
        }
    }

    /// Reports whether the driver should stop its run loop.
    pub fn should_quit(&self) -> (r: bool)
        ensures
            r == self.quit_spec(),
    {
        self.quit
    }

    /// Allocates an entity: pops the front of the free queue (the most
    /// recently freed slot, if any was freed), installs the id in its
    /// slot — overwriting a recycled slot, or appending a fresh one at the
    /// end — and, if the queue ran dry, refills it with the next fresh
    /// slot at generation 1 so a later spawn never stalls. Never fails.
    pub fn spawn(&mut self) -> (r: GenerationalId)
        requires
            old(self).wf(),
            old(self).ents().len() < 0xffff_ffff,
        ensures
            final(self).wf(),
            r == old(self).free()[0],
            final(self).alive_spec(r),
            final(self).ents() == if r.index < old(self).ents().len() {
                old(self).ents().update(r.index as int, Entity { id: r })
            } else {
                old(self).ents().push(Entity { id: r })
            },
            final(self).free() == if old(self).free().len() == 1 {
                seq![
                    GenerationalId { index: final(self).ents().len() as u32, generation: 1u32 },
                ]
            } else {
                old(self).free().subrange(1, old(self).free().len() as int)
            },
            final(self).managers() == old(self).managers(),
            final(self).quit_spec() == old(self).quit_spec(),
    {
        let id = match self.free_queue.pop_front() {
            Some(id) => id,
            None => {
                proof {
                    assert(false);
                }
                GenerationalId::new(0, 1)
            },
        };
        if (id.index as usize) < self.entities.len() {
            self.entities[id.index as usize] = Entity::new(id);
        } else {
            proof {
                assert(id.index as int == self.entities@.len());
            }
            self.entities.push(Entity::new(id));
        }
        if self.free_queue.len() == 0 {
            let next = self.entities.len() as u32;
            self.free_queue.push_back(GenerationalId::new(next, 1));
        }
        proof {
            assert forall|j: int| 0 <= j < self.managers().len() implies (#[trigger] self.managers()[j]).wf() by {
                assert(self.managers()[j] == old(self).managers()[j]);
                assert(old(self).managers()[j].wf());
            }
        }
        id
    }

    /// Removes an entity: rejects an out-of-range or stale handle with
    /// `InvalidEntity`; otherwise pushes the slot to the front of the free
    /// queue at the next generation — wrapping from the maximum back to 1,
    /// never to the tombstone 0 — removes the entity's component from
    /// every registered store at once (a store without one is untouched),
    /// and marks the slot dead by storing generation 0. The dead marker is
    /// distinct from "recycled": the two are reconciled when a later spawn
    /// overwrites the slot.
    pub fn delete(&mut self, id: GenerationalId) -> (r: Result<(), EcsError>)
        requires
            old(self).wf(),
        ensures
            final(self).wf(),
            !old(self).alive_spec(id) ==> r == Err::<(), EcsError>(EcsError::InvalidEntity)
                && *final(self) == *old(self),
            old(self).alive_spec(id) ==> {
                let next_gen: u32 = if id.generation == u32::MAX {
                    1u32
                } else {
                    (id.generation + 1) as u32
                };
                &&& r == Ok::<(), EcsError>(())
                &&& final(self).free() == seq![
                    GenerationalId { index: id.index, generation: next_gen },
                ] + old(self).free()
                &&& final(self).ents() == old(self).ents().update(
                    id.index as int,
                    Entity { id: GenerationalId { index: id.index, generation: 0u32 } },
                )
                &&& id.generation != 0 ==> !final(self).alive_spec(id)
                &&& final(self).managers().len() == old(self).managers().len()
                &&& forall|j: int|
                    0 <= j < old(self).managers().len() ==> deleted_now_rel(
                        old(self).managers()[j],
                        #[trigger] final(self).managers()[j],
                        id,
                    )
                &&& final(self).quit_spec() == old(self).quit_spec()
            },
    {
        if !self.is_alive(id) {
            return Err(EcsError::InvalidEntity);
        }
        let next_gen: u32 = if id.generation == u32::MAX {
            1
        } else {
            id.generation + 1
        };
        self.free_queue.push_front(GenerationalId::new(id.index, next_gen));
        let mut j: usize = 0;
        while j < self.component_managers.len()
            invariant
                old(self).wf(),
                j <= self.component_managers@.len(),
                self.component_managers@.len() == old(self).managers().len(),
                self.entities@ == old(self).ents(),
                self.free_queue@ == seq![
                    GenerationalId {
                        index: id.index,
                        generation: (if id.generation == u32::MAX {
                            1u32
                        } else {
                            (id.generation + 1) as u32
                        }),
                    },
                ] + old(self).free(),
                self.quit == old(self).quit_spec(),
                forall|t: int|
                    j <= t < old(self).managers().len() ==> #[trigger] self.component_managers@[t]
                        == old(self).managers()[t],
                forall|t: int|
                    0 <= t < j ==> deleted_now_rel(
                        old(self).managers()[t],
                        #[trigger] self.component_managers@[t],
                        id,
                    ),
            decreases self.component_managers@.len() - j,
        {
            let m = &mut self.component_managers[j];
            proof {
                assert(*m == old(self).managers()[j as int]);
                assert(old(self).managers()[j as int].wf());
            }
            let _ = m.general_delete_now(id);
            j = j + 1;
        }
        let idx = id.index as usize;
        self.entities[idx] = Entity::new(GenerationalId::new(id.index, 0));
        proof {
            assert forall|i: int| 0 <= i < self.free().len() implies (#[trigger] self.free()[i].index)
                <= self.ents().len() by {
                if i > 0 {
                    assert(old(self).free()[i - 1].index <= old(self).ents().len());
                }
            }
            assert forall|i: int| 0 <= i < self.free().len() implies (
            #[trigger] self.free()[i].generation) >= 1 by {
                if i > 0 {
                    assert(old(self).free()[i - 1].generation >= 1);
                }
            }
        }
        Ok(())
    }

    /// Binds a component store to its kind in the registry. Overwriting an
    /// existing binding is allowed — the last write wins — though not
    /// expected in normal use.
    pub fn register_manager(&mut self, man: ManagerBox)
        requires
            old(self).wf(),
            man.wf(),
        ensures
            final(self).wf(),
            final(self).has_manager(man.kind_spec()),
            final(self).mgr(man.kind_spec()) == man,
            forall|k2: ComponentKind|
                k2 != man.kind_spec() ==> (#[trigger] final(self).has_manager(k2) <==> old(self).has_manager(k2)),
            forall|k2: ComponentKind|
                k2 != man.kind_spec() && old(self).has_manager(k2) ==> #[trigger] final(self).mgr(
                    k2,
                ) == old(self).mgr(k2),
            final(self).ents() == old(self).ents(),
            final(self).free() == old(self).free(),
            final(self).quit_spec() == old(self).quit_spec(),
    {
        let kind = man.kind();
        let mut j: usize = 0;
        let n = self.component_managers.len();
        let mut found: Option<usize> = None;
        while j < n
            invariant
                j <= n,
                n == self.component_managers@.len(),
                match found {
                    Some(p) => p < j && self.component_managers@[p as int].kind_spec() == kind,
                    None => forall|t: int|
                        0 <= t < j ==> (#[trigger] self.component_managers@[t]).kind_spec()
                            != kind,
                },
            decreases n - j,
        {
            if self.component_managers[j].kind() == kind {
                found = Some(j);
            }
            j = j + 1;
        }
        match found {
            Some(p) => {
                self.component_managers[p] = man;
                proof {
                    let fin = *self;
                    let oldw = *old(self);
                    assert(fin.managers() == oldw.managers().update(p as int, man));
                    Self::lemma_replaced_manager_wf(oldw, fin, p as int, man);
                    assert(fin.managers()[p as int].kind_spec() == kind);
                    assert(fin.manager_idx(kind) == p as int) by {
                        let q = fin.manager_idx(kind);
                        assert(fin.has_manager(kind));
                        if q != p as int {
                            assert(fin.managers()[q] == oldw.managers()[q]);
                            assert(oldw.managers()[p as int].kind_spec() == kind);
                        }
                    }
                    assert forall|k2: ComponentKind| k2 != kind && oldw.has_manager(k2) implies
                        #[trigger] fin.mgr(k2) == oldw.mgr(k2) by {
                        let q = oldw.manager_idx(k2);
                        assert(oldw.managers()[q].kind_spec() == k2);
                        assert(fin.managers()[q].kind_spec() == k2);
                        assert(fin.has_manager(k2));
                        let q2 = fin.manager_idx(k2);
                        assert(fin.managers()[q2].kind_spec() == k2);
                        if q2 != q {
                            let a: int = if q < q2 {
                                q
                            } else {
                                q2
                            };
                            let b: int = if q < q2 {
                                q2
                            } else {
                                q
                            };
                            if q2 == p as int {
                                assert(fin.managers()[q2].kind_spec() == kind);
                            } else {
                                assert(oldw.managers()[q2].kind_spec() == k2);
                                assert(oldw.managers()[a].kind_spec() != oldw.managers()[b].kind_spec());
                            }
                        }
                    }
                    assert forall|k2: ComponentKind| k2 != kind implies (#[trigger] fin.has_manager(
                        k2,
                    ) <==> oldw.has_manager(k2)) by {
                        if fin.has_manager(k2) {
                            let q = fin.manager_idx(k2);
                            assert(fin.managers()[q].kind_spec() == k2);
                            if q == p as int {
                                assert(k2 == kind);
                            } else {
                                assert(oldw.managers()[q].kind_spec() == k2);
                            }
                        }
                        if oldw.has_manager(k2) {
                            let q = oldw.manager_idx(k2);
                            assert(oldw.managers()[q].kind_spec() == k2);
                            assert(q != p as int);
                            assert(fin.managers()[q].kind_spec() == k2);
                        }
                    }
                }
            },
            None => {
                let ghost oldlen = self.component_managers@.len() as int;
                self.component_managers.push(man);
                proof {
                    let fin = *self;
                    let oldw = *old(self);
                    assert(fin.managers() == oldw.managers().push(man));
                    assert(fin.managers()[oldlen].kind_spec() == kind);
                    assert(fin.has_manager(kind));
                    assert(fin.manager_idx(kind) == oldlen) by {
                        let q = fin.manager_idx(kind);
                        if q != oldlen {
                            assert(fin.managers()[q] == oldw.managers()[q]);
                        }
                    }
                    assert forall|k2: ComponentKind| k2 != kind && oldw.has_manager(k2) implies
                        #[trigger] fin.mgr(k2) == oldw.mgr(k2) by {
                        let q = oldw.manager_idx(k2);
                        assert(oldw.managers()[q].kind_spec() == k2);
                        assert(fin.managers()[q].kind_spec() == k2);
                        assert(fin.has_manager(k2));
                        let q2 = fin.manager_idx(k2);
                        assert(fin.managers()[q2].kind_spec() == k2);
                        if q2 != q {
                            if q2 == oldlen {
                                assert(k2 == kind);
                            } else {
                                let a: int = if q < q2 {
                                    q
                                } else {
                                    q2
                                };
                                let b: int = if q < q2 {
                                    q2
                                } else {
                                    q
                                };
                                assert(oldw.managers()[a].kind_spec() != oldw.managers()[b].kind_spec());
                            }
                        }
                    }
                    assert forall|k2: ComponentKind| k2 != kind implies (#[trigger] fin.has_manager(
                        k2,
                    ) <==> oldw.has_manager(k2)) by {
                        if fin.has_manager(k2) {
                            let q = fin.manager_idx(k2);
                            assert(fin.managers()[q].kind_spec() == k2);
                            if q == oldlen {
                                assert(k2 == kind);
                            } else {
                                assert(oldw.managers()[q].kind_spec() == k2);
                            }
                        }
                        if oldw.has_manager(k2) {
                            let q = oldw.manager_idx(k2);
                            assert(oldw.managers()[q].kind_spec() == k2);
                            assert(fin.managers()[q].kind_spec() == k2);
                        }
                    }
                    assert forall|j1: int, j2: int| 0 <= j1 < j2 < fin.managers().len() implies
                        fin.managers()[j1].kind_spec() != fin.managers()[j2].kind_spec() by {
                        if j2 == oldlen {
                            assert(fin.managers()[j1] == oldw.managers()[j1]);
                        } else {
                            assert(oldw.managers()[j1].kind_spec() != oldw.managers()[j2].kind_spec());
                        }
                    }
                    assert forall|t: int| 0 <= t < fin.managers().len() implies (
                    #[trigger] fin.managers()[t]).wf() by {
                        if t < oldlen {
                            assert(fin.managers()[t] == oldw.managers()[t]);
                            assert(oldw.managers()[t].wf());
                        }
                    }
                    assert forall|i: int| 0 <= i < fin.free().len() implies (
                    #[trigger] fin.free()[i].index) <= fin.ents().len() && fin.free()[i].generation
                        >= 1 by {
                        assert(oldw.free()[i].index <= oldw.ents().len());
                        assert(oldw.free()[i].generation >= 1);
                    }
                }
            },
        }
    }

    /// A shared handle to the store for `kind`, or `None` if no store for
    /// that kind is registered. Shared handles to one kind may coexist.
    pub fn manager(&self, kind: ComponentKind) -> (r: Option<&ManagerBox>)
        requires
            self.wf(),
        ensures
            match r {
                Some(m) => self.has_manager(kind) && *m == self.mgr(kind) && m.kind_spec() == kind,
                None => !self.has_manager(kind),
            },
    {
        let mut j: usize = 0;
        let n = self.component_managers.len();
        while j < n
            invariant
                self.wf(),
                j <= n,
                n == self.component_managers@.len(),
                forall|t: int|
                    0 <= t < j ==> (#[trigger] self.component_managers@[t]).kind_spec() != kind,
            decreases n - j,
        {
            if self.component_managers[j].kind() == kind {
                proof {
                    assert(self.has_manager(kind));
                    let q = self.manager_idx(kind);
                    assert(self.managers()[q].kind_spec() == kind);
                    if q != j as int {
                        let a: int = if q < j as int {
                            q
                        } else {
                            j as int
                        };
                        let b: int = if q < j as int {
                            j as int
                        } else {
                            q
                        };
                        assert(self.managers()[a].kind_spec() != self.managers()[b].kind_spec());
                    }
                }
                return Some(&self.component_managers[j]);
            }
            j = j + 1;
        }
        None
    }

    /// An exclusive handle to the store for `kind`, or `None` if no store
    /// for that kind is registered. The handle's exclusivity ends with its
    /// borrow; writing through it must keep the store well-formed and of
    /// its kind for the world to stay well-formed (see
    /// `lemma_replaced_manager_wf`).
    pub fn manager_mut(&mut self, kind: ComponentKind) -> (r: Option<&mut ManagerBox>)
        requires
            old(self).wf(),
        ensures
            r is Some <==> old(self).has_manager(kind),
            r is None ==> *final(self) == *old(self),
            r matches Some(m) ==> {
                &&& *m == old(self).mgr(kind)
                &&& m.kind_spec() == kind
                &&& 0 <= old(self).manager_idx(kind) < old(self).managers().len()
                &&& final(self).managers() == old(self).managers().update(
                    old(self).manager_idx(kind),
                    *final(m),
                )
                &&& final(self).ents() == old(self).ents()
                &&& final(self).free() == old(self).free()
                &&& final(self).quit_spec() == old(self).quit_spec()
            },
    {
        let mut j: usize = 0;
        let n = self.component_managers.len();
        let mut found: Option<usize> = None;
        while j < n
            invariant
                old(self).wf(),
                *self == *old(self),
                j <= n,
                n == self.component_managers@.len(),
                found is None,
                forall|t: int|
                    0 <= t < j ==> (#[trigger] self.component_managers@[t]).kind_spec() != kind,
            decreases n - j,
        {
            if self.component_managers[j].kind() == kind {
                proof {
                    assert(self.has_manager(kind));
                    let q = self.manager_idx(kind);
                    assert(self.managers()[q].kind_spec() == kind);
                    if q != j as int {
                        let a: int = if q < j as int {
                            q
                        } else {
                            j as int
                        };
                        let b: int = if q < j as int {
                            j as int
                        } else {
                            q
                        };
                        assert(self.managers()[a].kind_spec() != self.managers()[b].kind_spec());
                    }
                }
                return Some(&mut self.component_managers[j]);
            }
            j = j + 1;
        }
        None
    }

    /// Attaches a component to a live entity: rejects a dead or stale
    /// handle with `InvalidEntity`, a component kind with no registered
    /// store with `MissingManager`, and a second component of one kind on
    /// one owner with `DuplicateComponent`; otherwise the component is
    /// stored under `handle` as its owner. On any failure nothing changes.
    pub fn attach_component(&mut self, handle: GenerationalId, comp: ComponentBox) -> (r: Result<
        (),
        EcsError,
    >)
        requires
            old(self).wf(),
        ensures
            final(self).wf(),
            !old(self).alive_spec(handle) ==> r == Err::<(), EcsError>(EcsError::InvalidEntity)
                && *final(self) == *old(self),
            old(self).alive_spec(handle) && !old(self).has_manager(comp.kind_spec()) ==> r == Err::<
                (),
                EcsError,
            >(EcsError::MissingManager) && *final(self) == *old(self),
            old(self).alive_spec(handle) && old(self).has_manager(comp.kind_spec()) && old(self).mgr(comp.kind_spec()).has_spec(handle) ==> r == Err::<(), EcsError>(
                EcsError::DuplicateComponent,
            ) && final(self).managers() == old(self).managers() && final(self).ents() == old(self).ents() && final(self).free() == old(self).free() && final(self).quit_spec() == old(self).quit_spec(),
            old(self).alive_spec(handle) && old(self).has_manager(comp.kind_spec()) && !old(self).mgr(comp.kind_spec()).has_spec(handle) ==> {
                let j = old(self).manager_idx(comp.kind_spec());
                let m0 = old(self).managers()[j];
                &&& r == Ok::<(), EcsError>(())
                &&& final(self).managers().len() == old(self).managers().len()
                &&& forall|t: int|
                    0 <= t < old(self).managers().len() && t != j ==> #[trigger] final(self).managers()[t] == old(self).managers()[t]
                &&& final(self).managers()[j].kind_spec() == m0.kind_spec()
                &&& (comp matches ComponentBox::Name(nc) && final(self).managers()[j].inner().comps()
                    == m0.inner().comps().push(
                    crate::component::NameComponent { owner: handle, name: nc.name },
                ))
                &&& final(self).managers()[j].inner().index_map() == m0.inner().index_map().insert(
                    handle.key_spec(),
                    m0.inner().comps().len() as usize,
                )
                &&& final(self).managers()[j].inner().pending() == m0.inner().pending()
                &&& final(self).ents() == old(self).ents()
                &&& final(self).free() == old(self).free()
                &&& final(self).quit_spec() == old(self).quit_spec()
            },
    {
        if !self.is_alive(handle) {
            return Err(EcsError::InvalidEntity);
        }
        let kind = comp.kind();
        let mut j: usize = 0;
        let n = self.component_managers.len();
        while j < n
            invariant
                old(self).wf(),
                old(self).alive_spec(handle),
                *self == *old(self),
                j <= n,
                n == self.component_managers@.len(),
                forall|t: int|
                    0 <= t < j ==> (#[trigger] self.component_managers@[t]).kind_spec() != kind,
            decreases n - j,
        {
            if self.component_managers[j].kind() == kind {
                proof {
                    assert(self.has_manager(kind));
                    let q = self.manager_idx(kind);
                    assert(self.managers()[q].kind_spec() == kind);
                    if q != j as int {
                        let a: int = if q < j as int {
                            q
                        } else {
                            j as int
                        };
                        let b: int = if q < j as int {
                            j as int
                        } else {
                            q
                        };
                        assert(self.managers()[a].kind_spec() != self.managers()[b].kind_spec());
                    }
                    assert(self.manager_idx(kind) == j as int);
                }
                let m = &mut self.component_managers[j];
                let res = match (m, comp) {
                    (ManagerBox::Name(mgr), ComponentBox::Name(nc)) => mgr.insert(handle, nc),
                };
                proof {
                    let oldw = *old(self);
                    let fin = *self;
                    assert(fin.managers() == oldw.managers().update(
                        j as int,
                        fin.managers()[j as int],
                    ));
                    Self::lemma_replaced_manager_wf(
                        oldw,
                        fin,
                        j as int,
                        fin.managers()[j as int],
                    );
                    if oldw.mgr(kind).has_spec(handle) {
                        assert(fin.managers() =~= oldw.managers());
                    }
                }
                return res;
            }
            j = j + 1;
        }
        Err(EcsError::MissingManager)
    }

    /// A snapshot of a live entity: the entity record together with an
    /// independent duplicate of every component the entity owns across all
    /// registered stores, in registration order. Fails with
    /// `InvalidEntity` on a dead or stale handle.
    pub fn clone_components_of(&self, handle: GenerationalId) -> (r: Result<
        (Entity, Vec<ComponentBox>),
        EcsError,
    >)
        requires
            self.wf(),
        ensures
            match r {
                Err(e) => !self.alive_spec(handle) && e == EcsError::InvalidEntity,
                Ok(pair) => {
                    &&& self.alive_spec(handle)
                    &&& pair.0 == self.ents()[handle.index as int]
                    &&& pair.1@.map_values(|cb: ComponentBox| cb@) =~= snapshot_of(
                        self.managers(),
                        handle,
                    )
                },
            },
    {
        if !self.is_alive(handle) {
            return Err(EcsError::InvalidEntity);
        }
        let mut v: Vec<ComponentBox> = Vec::new();
        let mut j: usize = 0;
        let n = self.component_managers.len();
        while j < n
            invariant
                self.wf(),
                j <= n,
                n == self.component_managers@.len(),
                v@.map_values(|cb: ComponentBox| cb@) =~= snapshot_of(
                    self.managers().subrange(0, j as int),
                    handle,
                ),
            decreases n - j,
        {
            let ghost prefix = self.managers().subrange(0, j as int);
            match self.component_managers[j].fetch_dyn(handle) {
                Some(c) => {
                    v.push(c);
                },
                None => {},
            }
            proof {
                assert(self.managers().subrange(0, j + 1 as int).drop_last() =~= prefix);
                assert(self.managers().subrange(0, j + 1 as int).last() == self.managers()[
                    j as int
                ]);
                assert(v@.map_values(|cb: ComponentBox| cb@) =~= snapshot_of(
                    self.managers().subrange(0, j + 1 as int),
                    handle,
                ));
            }
            j = j + 1;
        }
        proof {
            assert(self.managers().subrange(0, n as int) =~= self.managers());
        }
        Ok((self.entities[handle.index as usize], v))
    }

    /// Law: the store never issues the tombstone generation. Every id the
    /// free queue offers — and `spawn` returns the queue's front — carries
    /// a generation of at least 1, also after a deleted slot's generation
    /// wraps around the maximum.
    pub proof fn lemma_no_tombstone_issued(w: World)
        requires
            w.wf(),
        ensures
            forall|i: int| 0 <= i < w.free().len() ==> (#[trigger] w.free()[i]).generation >= 1,
            w.free()[0].generation >= 1,
    {
    }

    /// Law: replacing one registered store with a well-formed store of the
    /// same kind keeps the world well-formed. This is what a caller of
    /// `manager_mut` relies on after writing through the handle.
    pub proof fn lemma_replaced_manager_wf(w0: World, w1: World, j: int, m: ManagerBox)
        requires
            w0.wf(),
            0 <= j < w0.managers().len(),
            m.wf(),
            m.kind_spec() == w0.managers()[j].kind_spec(),
            w1.managers() == w0.managers().update(j, m),
            w1.ents() == w0.ents(),
            w1.free() == w0.free(),
        ensures
            w1.wf(),
    {
        assert forall|i: int| 0 <= i < w1.free().len() implies (#[trigger] w1.free()[i].index)
            <= w1.ents().len() && w1.free()[i].generation >= 1 by {
            assert(w0.free()[i].index <= w0.ents().len());
            assert(w0.free()[i].generation >= 1);
        }
        assert forall|t: int| 0 <= t < w1.managers().len() implies (
        #[trigger] w1.managers()[t]).wf() by {
            if t != j {
                assert(w1.managers()[t] == w0.managers()[t]);
            }
            assert(w0.managers()[t].wf());
        }
        assert forall|j1: int, j2: int| 0 <= j1 < j2 < w1.managers().len() implies
            w1.managers()[j1].kind_spec() != w1.managers()[j2].kind_spec() by {
            assert(w1.managers()[j1].kind_spec() == w0.managers()[j1].kind_spec());
            assert(w1.managers()[j2].kind_spec() == w0.managers()[j2].kind_spec());
        }
    }

    /// Flushes the deferred deletions of every registered store; nothing
    /// else changes.
    pub fn update(&mut self)
        requires
            old(self).wf(),
        ensures
            final(self).wf(),
            final(self).ents() == old(self).ents(),
            final(self).free() == old(self).free(),
            final(self).quit_spec() == old(self).quit_spec(),
            final(self).managers().len() == old(self).managers().len(),
            forall|j: int|
                0 <= j < old(self).managers().len() ==> updated_rel(
                    old(self).managers()[j],
                    #[trigger] final(self).managers()[j],
                ),
    {
        let mut j: usize = 0;
        while j < self.component_managers.len()
            invariant
                old(self).wf(),
                j <= self.component_managers@.len(),
                self.component_managers@.len() == old(self).managers().len(),
                self.entities@ == old(self).ents(),
                self.free_queue@ == old(self).free(),
                self.quit == old(self).quit_spec(),
                forall|t: int|
                    j <= t < old(self).managers().len() ==> #[trigger] self.component_managers@[t]
                        == old(self).managers()[t],
                forall|t: int|
                    0 <= t < j ==> updated_rel(
                        old(self).managers()[t],
                        #[trigger] self.component_managers@[t],
                    ),
            decreases self.component_managers@.len() - j,
        {
            let m = &mut self.component_managers[j];
            proof {
                assert(*m == old(self).managers()[j as int]);
                assert(old(self).managers()[j as int].wf());
            }
            m.general_update();
            j = j + 1;
        }
        proof {
            assert forall|i: int| 0 <= i < self.free().len() implies (#[trigger] self.free()[i].index)
                <= self.ents().len() && self.free()[i].generation >= 1 by {
                assert(old(self).free()[i].index <= old(self).ents().len());
                assert(old(self).free()[i].generation >= 1);
            }
        }
    }
}

} // verus!

