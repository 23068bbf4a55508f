use vstd::prelude::*;
use crate::component::{ComponentKind, NameComponent};
use crate::component_manager::ManagerBox;
use crate::query::{Query, QueryElement};
use crate::world::World;

verus! {

/// The system kinds known to this scheduler, one tag per behavior unit.
/// The scheduler identifies a registered system by this tag when enabling
/// or disabling it.
#[derive(Copy, Clone, Debug, PartialEq, Eq, Structural)]
pub enum SystemKind {
    Name,
}

/// The names held in the world's name-component store, in dense-store
/// order — the order of insertion, entities without the component skipped.
/// A world with no name store registered yields nothing.
pub open spec fn names_in(w: World) -> Seq<Seq<char>> {
    if w.has_manager(ComponentKind::Name) {
        w.mgr(ComponentKind::Name).inner().comps().map_values(|c: NameComponent| c.name@)
    } else {
        Seq::empty()
    }
}

/// The behavior unit that reports every named entity: each tick it walks
/// the name-component store in order and appends each name to its output
/// buffer, which the driver drains to wherever the lines should go.
pub struct NameSystem {
    query: Query,
    output: Vec<String>,
}

impl NameSystem {
    /// The data-access declaration this system publishes: it reads the
    /// name components.
    pub closed spec fn query_spec(self) -> Query {
        self.query
    }

    /// The lines produced so far and not yet drained.
    pub closed spec fn lines(self) -> Seq<Seq<char>> {
        self.output@.map_values(|s: String| s@)
    }

    /// Creates the system with its query and an empty output buffer.
    pub fn new() -> (r: NameSystem)
        ensures
            r.query_spec().query@ =~= seq![
                QueryElement::Part(
                    crate::query::QueryPart {
                        acc: crate::query::QueryAccess::Read,
                        comp: ComponentKind::Name,
                    },
                ),
            ],
            r.lines() =~= Seq::<Seq<char>>::empty(),
    {
        NameSystem { query: Query::new(QueryElement::read(ComponentKind::Name)), output: Vec::new() }
    }

    /// The system's published query.
    pub fn query(&self) -> (r: &Query)
        ensures
            *r == self.query_spec(),
    {
        &self.query
    }

    /// One tick of the system: appends the names currently stored in the
    /// world, in dense-store order, to the output buffer. The elapsed-time
    /// value is opaque and unused here. The world is only read.
    #[verifier::loop_isolation(false)]
    pub fn run(&mut self, w: &World, _dt: u64)
        requires
            w.wf(),
        ensures
            final(self).query_spec() == old(self).query_spec(),
            final(self).lines() == old(self).lines() + names_in(*w),
    {
        match w.manager(ComponentKind::Name) {
            Some(m) => {
                match m {
                    ManagerBox::Name(mgr) => {
                        let n = mgr.len();
                        let mut i: usize = 0;
                        while i < n
                            invariant
                                n == mgr.comps().len(),
                                i <= n,
                                self.query == old(self).query,
                                self.output@.map_values(|s: String| s@) =~= old(self).lines()
                                    + mgr.comps().subrange(0, i as int).map_values(
                                    |c: NameComponent| c.name@,
                                ),
                            decreases n - i,
                        {
                            let ghost prev_out = self.output@;
                            let line = mgr.get_at(i).name.clone();
                            proof {
                                assert(line@ == mgr.comps()[i as int].name@);
                            }
                            self.output.push(line);
                            proof {
                                assert(self.output@ == prev_out.push(line));
                                assert(self.output@.len() == prev_out.len() + 1);
                                assert(prev_out.map_values(|s: String| s@) =~= old(self).lines()
                                    + mgr.comps().subrange(0, i as int).map_values(
                                    |c: NameComponent| c.name@,
                                ));
                                assert forall|j: int|
                                    0 <= j < self.output@.len() implies (#[trigger] self.output@[j])@
                                    == (old(self).lines() + mgr.comps().subrange(
                                    0,
                                    i + 1 as int,
                                ).map_values(|c: NameComponent| c.name@))[j] by {
                                    if j < prev_out.len() {
                                        assert(self.output@[j] == prev_out[j]);
                                        assert(prev_out.map_values(|s: String| s@)[j] == prev_out[j]@);
                                        if j >= old(self).lines().len() {
                                            let k = j - old(self).lines().len();
                                            assert(mgr.comps().subrange(0, i as int)[k]
                                                == mgr.comps()[k]);
                                            assert(mgr.comps().subrange(0, i + 1 as int)[k]
                                                == mgr.comps()[k]);
                                        }
                                    } else {
                                        assert(self.output@[j] == line);
                                        assert(mgr.comps().subrange(0, i + 1 as int)[i as int]
                                            == mgr.comps()[i as int]);
                                    }
                                }
                                assert(self.output@.map_values(|s: String| s@) =~= old(self).lines()
                                    + mgr.comps().subrange(0, i + 1 as int).map_values(
                                    |c: NameComponent| c.name@,
                                ));
                            }
                            i = i + 1;
                        }
                        proof {
                            assert(mgr.comps().subrange(0, n as int) =~= mgr.comps());
                            assert(names_in(*w) == mgr.comps().map_values(
                                |c: NameComponent| c.name@,
                            ));
                        }
                    },
                }
            },
            None => {
                proof {
                    assert(self.lines() =~= old(self).lines() + names_in(*w));
                }
            },
        }
    }

    /// Hands out the buffered lines and leaves the buffer empty.
    pub fn take_lines(&mut self) -> (r: Vec<String>)
        ensures
            r@.map_values(|s: String| s@) == old(self).lines(),
            final(self).lines() =~= Seq::<Seq<char>>::empty(),
            final(self).query_spec() == old(self).query_spec(),
    {
        let mut out: Vec<String> = Vec::new();
        std::mem::swap(&mut out, &mut self.output);
        out
    }
}

/// A behavior unit of any kind, tagged by its kind: the closed form the
/// scheduler stores, dispatching each call by matching on the tag.
pub enum SystemBox {
    Name(NameSystem),
}

/// What one run of a system appends to its output lines, as a function of
/// the system and the world it reads.
pub open spec fn run_appends(s: SystemBox, w: World) -> Seq<Seq<char>> {
    match s {
        SystemBox::Name(_) => names_in(w),
    }
}

/// The output lines a system has buffered.
pub open spec fn lines_of(s: SystemBox) -> Seq<Seq<char>> {
    match s {
        SystemBox::Name(ns) => ns.lines(),
    }
}

/// The query a system publishes.
pub open spec fn query_of(s: SystemBox) -> Query {
    match s {
        SystemBox::Name(ns) => ns.query_spec(),
    }
}

impl SystemBox {
    /// The kind tag of the wrapped system.
    pub open spec fn kind_spec(&self) -> SystemKind {
        match self {
            SystemBox::Name(_) => SystemKind::Name,
        }
    }

    /// Reports which kind of system is inside.
    pub fn kind(&self) -> (r: SystemKind)
        ensures
            r == self.kind_spec(),
    {
        match self {
            SystemBox::Name(_) => SystemKind::Name,
        }
    }

    /// One tick of the wrapped system: reads the world and appends what
    /// the system produces to its own buffered lines.
    pub fn run(&mut self, w: &World, dt: u64)
        requires
            w.wf(),
        ensures
            final(self).kind_spec() == old(self).kind_spec(),
            query_of(*final(self)) == query_of(*old(self)),
            lines_of(*final(self)) == lines_of(*old(self)) + run_appends(*old(self), *w),
    {
        match self {
            SystemBox::Name(ns) => ns.run(w, dt),
        }
    }
}

} // verus!
