use vstd::prelude::*;
use crate::system::{SystemBox, SystemKind, lines_of, query_of, run_appends};
use crate::world::World;

verus! {

/// The sequential scheduler: holds systems in insertion order beside a
/// parallel enabled-flag list and a kind-to-position map, and runs the
/// enabled ones in order, one at a time, once per tick. The published
/// queries are the hook for a future conflict-checking parallel dispatch;
/// this scheduler itself is strictly sequential.
pub struct SystemManager {
    systems: Vec<SystemBox>,
    enabled: Vec<bool>,
    sys_map: Vec<(SystemKind, usize)>,
}

impl SystemManager {
    /// The registered systems, in insertion order.
    pub closed spec fn systems(self) -> Seq<SystemBox> {
        self.systems@
    }

    /// The enabled flag of each position.
    pub closed spec fn enabled(self) -> Seq<bool> {
        self.enabled@
    }

    /// The kind-to-position bindings.
    pub closed spec fn bindings(self) -> Seq<(SystemKind, usize)> {
        self.sys_map@
    }

    /// Whether a system of `kind` is registered.
    pub open spec fn has_system(self, kind: SystemKind) -> bool {
        exists|j: int|
            0 <= j < self.bindings().len() && (#[trigger] self.bindings()[j]).0 == kind
    }

    /// The position bound to `kind`.
    pub open spec fn sys_idx(self, kind: SystemKind) -> int {
        let j = choose|j: int|
            0 <= j < self.bindings().len() && (#[trigger] self.bindings()[j]).0 == kind;
        self.bindings()[j].1 as int
    }

    /// The scheduler's invariant: one flag per system, every binding names
    /// a position of its own kind, and no kind is bound twice.
    pub open spec fn wf(self) -> bool {
        &&& self.enabled().len() == self.systems().len()
        &&& forall|j: int|
            0 <= j < self.bindings().len() ==> ((#[trigger] self.bindings()[j]).1
                < self.systems().len() && self.systems()[self.bindings()[j].1 as int].kind_spec()
                == self.bindings()[j].0)
        &&& forall|j1: int, j2: int|
            0 <= j1 < j2 < self.bindings().len() ==> self.bindings()[j1].0
                != self.bindings()[j2].0
    }

    /// Creates an empty scheduler.
    pub fn new() -> (r: SystemManager)
        ensures
            r.wf(),
            r.systems() =~= Seq::<SystemBox>::empty(),
            r.enabled() =~= Seq::<bool>::empty(),
            r.bindings() =~= Seq::<(SystemKind, usize)>::empty(),
    {
        SystemManager { systems: Vec::new(), enabled: Vec::new(), sys_map: Vec::new() }
    }

    /// Registers a system at the end of storage under its own kind,
    /// enabled. Appending a second system of one kind rebinds the kind to
    /// the new position; the older system stays but can no longer be
    /// toggled by kind.
    pub fn append(&mut self, sys: SystemBox)
        requires
            old(self).wf(),
        ensures
            final(self).wf(),
            final(self).systems() == old(self).systems().push(sys),
            final(self).enabled() == old(self).enabled().push(true),
            final(self).has_system(sys.kind_spec()),
            final(self).sys_idx(sys.kind_spec()) == old(self).systems().len(),
            forall|k2: SystemKind|
                k2 != sys.kind_spec() ==> (#[trigger] final(self).has_system(k2) <==> old(self).has_system(k2)),
            forall|k2: SystemKind|
                k2 != sys.kind_spec() && old(self).has_system(k2) ==> #[trigger] final(self).sys_idx(k2) == old(self).sys_idx(k2),
    {
        let kind = sys.kind();
        let pos = self.systems.len();
        self.systems.push(sys);
        self.enabled.push(true);
        let mut j: usize = 0;
        let n = self.sys_map.len();
        let mut found: Option<usize> = None;
        while j < n
            invariant
                j <= n,
                n == self.sys_map@.len(),
                match found {
                    Some(p) => p < j && self.sys_map@[p as int].0 == kind,
                    None => forall|t: int|
                        0 <= t < j ==> (#[trigger] self.sys_map@[t]).0 != kind,
                },
            decreases n - j,
        {
            if self.sys_map[j].0 == kind {
                found = Some(j);
            }
            j = j + 1;
        }
        match found {
            Some(p) => {
                self.sys_map[p] = (kind, pos);
                proof {
                    lemma_bound_kind_unique(*self, kind, p as int);
                }
            },
            None => {
                self.sys_map.push((kind, pos));
                proof {
                    lemma_bound_kind_unique(*self, kind, self.sys_map@.len() - 1);
                    assert forall|j1: int, j2: int|
                        0 <= j1 < j2 < self.sys_map@.len() implies self.sys_map@[j1].0
                        != self.sys_map@[j2].0 by {
                        if j2 < self.sys_map@.len() - 1 {
                            assert(old(self).bindings()[j1].0 != old(self).bindings()[j2].0);
                        }
                    }
                }
            },
        }
        proof {
            let fin = *self;
            let oldm = *old(self);
            assert forall|k2: SystemKind| k2 != kind implies (#[trigger] fin.has_system(k2) <==> oldm.has_system(k2)) by {
                if fin.has_system(k2) {
                    let q = choose|q: int|
                        0 <= q < fin.bindings().len() && (#[trigger] fin.bindings()[q]).0 == k2;
                    assert(oldm.bindings()[q].0 == k2);
                }
                if oldm.has_system(k2) {
                    let q = choose|q: int|
                        0 <= q < oldm.bindings().len() && (#[trigger] oldm.bindings()[q]).0 == k2;
                    assert(fin.bindings()[q].0 == k2);
                }
            }
            assert forall|k2: SystemKind| k2 != kind && oldm.has_system(k2) implies #[trigger] fin.sys_idx(
                k2,
            ) == oldm.sys_idx(k2) by {
                let q1 = choose|q: int|
                    0 <= q < fin.bindings().len() && (#[trigger] fin.bindings()[q]).0 == k2;
                let q2 = choose|q: int|
                    0 <= q < oldm.bindings().len() && (#[trigger] oldm.bindings()[q]).0 == k2;
                assert(fin.bindings()[q2].0 == k2);
                assert(oldm.bindings()[q1].0 == k2);
                if q1 != q2 {
                    let a: int = if q1 < q2 {
                        q1
                    } else {
                        q2
                    };
                    let b: int = if q1 < q2 {
                        q2
                    } else {
                        q1
                    };
                    assert(oldm.bindings()[a].0 != oldm.bindings()[b].0);
                }
            }
        }
    }

    /// Marks the system of `kind` as disabled; a kind that was never
    /// appended is a no-op.
    pub fn disable(&mut self, kind: SystemKind)
        requires
            old(self).wf(),
        ensures
            final(self).wf(),
            !old(self).has_system(kind) ==> *final(self) == *old(self),
            old(self).has_system(kind) ==> {
                &&& final(self).systems() == old(self).systems()
                &&& final(self).bindings() == old(self).bindings()
                &&& final(self).enabled() == old(self).enabled().update(
                    old(self).sys_idx(kind),
                    false,
                )
            },
    {
        self.set_flag(kind, false);
    }

    /// Marks the system of `kind` as enabled; a kind that was never
    /// appended is a no-op.
    pub fn enable(&mut self, kind: SystemKind)
        requires
            old(self).wf(),
        ensures
            final(self).wf(),
            !old(self).has_system(kind) ==> *final(self) == *old(self),
            old(self).has_system(kind) ==> {
                &&& final(self).systems() == old(self).systems()
                &&& final(self).bindings() == old(self).bindings()
                &&& final(self).enabled() == old(self).enabled().update(
                    old(self).sys_idx(kind),
                    true,
                )
            },
    {
        self.set_flag(kind, true);
    }

    /// Sets the enabled flag of the system bound to `kind`, if any.
    fn set_flag(&mut self, kind: SystemKind, value: bool)
        requires
            old(self).wf(),
        ensures
            final(self).wf(),
            !old(self).has_system(kind) ==> *final(self) == *old(self),
            old(self).has_system(kind) ==> {
                &&& final(self).systems() == old(self).systems()
                &&& final(self).bindings() == old(self).bindings()
                &&& final(self).enabled() == old(self).enabled().update(
                    old(self).sys_idx(kind),
                    value,
                )
            },
    {
        let mut j: usize = 0;
        let n = self.sys_map.len();
        while j < n
            invariant
                old(self).wf(),
                *self == *old(self),
                j <= n,
                n == self.sys_map@.len(),
                forall|t: int| 0 <= t < j ==> (#[trigger] self.sys_map@[t]).0 != kind,
            decreases n - j,
        {
            if self.sys_map[j].0 == kind {
                let pos = self.sys_map[j].1;
                proof {
                    assert(self.has_system(kind));
                    let q = choose|q: int|
                        0 <= q < self.bindings().len() && (#[trigger] self.bindings()[q]).0
                            == kind;
                    if q != j as int {
                        let a: int = if q < j as int {
                            q
                        } else {
                            j as int
                        };
                        let b: int = if q < j as int {
                            j as int
                        } else {
                            q
                        };
                        assert(self.bindings()[a].0 != self.bindings()[b].0);
                    }
                    assert(self.sys_idx(kind) == pos as int);
                }
                self.enabled[pos] = value;
                return ;
            }
            j = j + 1;
        }
    }

    /// An exclusive handle to the system at position `i`, for the driver
    /// to drain what the system produced. Writing through the handle must
    /// keep the system's kind for the scheduler to stay well-formed.
    pub fn system_at(&mut self, i: usize) -> (r: &mut SystemBox)
        requires
            i < old(self).systems().len(),
        ensures
            *r == old(self).systems()[i as int],
            final(self).systems() == old(self).systems().update(i as int, *final(r)),
            final(self).enabled() == old(self).enabled(),
            final(self).bindings() == old(self).bindings(),
    {
        &mut self.systems[i]
    }

    /// One tick: walks the positions in insertion order and runs each
    /// enabled system against the world; a disabled system is skipped with
    /// no state change of any sort, its query results included. The world
    /// is only read; the elapsed-time value is passed through unchanged.
    pub fn execute(&mut self, world: &World, dt: u64)
        requires
            old(self).wf(),
            world.wf(),
        ensures
            final(self).wf(),
            final(self).enabled() == old(self).enabled(),
            final(self).bindings() == old(self).bindings(),
            final(self).systems().len() == old(self).systems().len(),
            forall|i: int|
                0 <= i < old(self).systems().len() ==> (#[trigger] final(self).systems()[i]).kind_spec() == old(self).systems()[i].kind_spec(),
            forall|i: int|
                0 <= i < old(self).systems().len() ==> query_of(#[trigger] final(self).systems()[i])
                    == query_of(old(self).systems()[i]),
            forall|i: int|
                0 <= i < old(self).systems().len() ==> lines_of(#[trigger] final(self).systems()[i])
                    == if old(self).enabled()[i] {
                    lines_of(old(self).systems()[i]) + run_appends(old(self).systems()[i], *world)
                } else {
                    lines_of(old(self).systems()[i])
                },
    {
        let mut i: usize = 0;
        let n = self.systems.len();
        while i < n
            invariant
                old(self).wf(),
                world.wf(),
                i <= n,
                n == self.systems@.len(),
                self.systems@.len() == old(self).systems().len(),
                self.enabled@ == old(self).enabled(),
                self.sys_map@ == old(self).bindings(),
                forall|t: int|
                    i <= t < old(self).systems().len() ==> #[trigger] self.systems@[t] == old(self).systems()[t],
                forall|t: int|
                    0 <= t < i ==> (#[trigger] self.systems@[t]).kind_spec() == old(self).systems()[t].kind_spec(),
                forall|t: int|
                    0 <= t < i ==> query_of(#[trigger] self.systems@[t]) == query_of(
                        old(self).systems()[t],
                    ),
                forall|t: int|
                    0 <= t < i ==> lines_of(#[trigger] self.systems@[t]) == if old(self).enabled()[t] {
                        lines_of(old(self).systems()[t]) + run_appends(
                            old(self).systems()[t],
                            *world,
                        )
                    } else {
                        lines_of(old(self).systems()[t])
                    },
            decreases n - i,
        {
            if self.enabled[i] {
                let s = &mut self.systems[i];
                s.run(world, dt);
            }
            i = i + 1;
        }
        proof {
            let fin = *self;
            let oldm = *old(self);
            assert forall|j: int| 0 <= j < fin.bindings().len() implies ((
            #[trigger] fin.bindings()[j]).1 < fin.systems().len()
                && fin.systems()[fin.bindings()[j].1 as int].kind_spec() == fin.bindings()[j].0) by {
                assert(oldm.bindings()[j].1 < oldm.systems().len());
                assert(fin.systems()[oldm.bindings()[j].1 as int].kind_spec()
                    == oldm.systems()[oldm.bindings()[j].1 as int].kind_spec());
            }
        }
    }
}

/// After binding `kind` at position `j` over otherwise-distinct bindings,
/// `kind` is bound, its binding is the one at `j`, and the kinds are still
/// pairwise distinct where they were before.
proof fn lemma_bound_kind_unique(m: SystemManager, kind: SystemKind, j: int)
    requires
        0 <= j < m.bindings().len(),
        m.bindings()[j].0 == kind,
        forall|t: int| 0 <= t < m.bindings().len() && t != j ==> (#[trigger] m.bindings()[t]).0 != kind,
    ensures
        m.has_system(kind),
        m.sys_idx(kind) == m.bindings()[j].1 as int,
{
    assert(m.has_system(kind));
    let q = choose|q: int| 0 <= q < m.bindings().len() && (#[trigger] m.bindings()[q]).0 == kind;
    if q != j {
        assert(m.bindings()[q].0 != kind);
    }
}

} // verus!
