use vstd::prelude::*;
use crate::component::ComponentKind;

verus! {

/// How a system touches a component kind it queries: merely checking for
/// presence, reading the data, or reading and writing it. A prospective
/// parallel scheduler may run two systems concurrently only if no
/// Read/ReadWrite or ReadWrite/ReadWrite overlap exists on the same kind.
#[derive(Copy, Clone, Debug, PartialEq, Eq, Structural)]
pub enum QueryAccess {
    Check,
    Read,
    ReadWrite,
}

/// One leaf of a query: a component kind together with its access mode.
#[derive(Copy, Clone, Debug, PartialEq, Eq, Structural)]
pub struct QueryPart {
    pub acc: QueryAccess,
    pub comp: ComponentKind,
}

impl QueryPart {
    /// Constructs a leaf for the given kind and access mode.
    pub fn new(a: QueryAccess, kind: ComponentKind) -> (r: QueryPart)
        ensures
            r.acc == a,
            r.comp == kind,
    {
        QueryPart { acc: a, comp: kind }
    }
}

/// A boolean expression over "the entity has a component of kind X,
/// accessed as mode M". Queries are pure, immutable descriptors: they are
/// built once, never mutated, and have no storage side effects.
#[derive(Debug)]
pub enum QueryElement {
    Part(QueryPart),
    Not(Box<QueryElement>),
    Or(Box<QueryElement>, Box<QueryElement>),
    And(Box<QueryElement>, Box<QueryElement>),
    Xor(Box<QueryElement>, Box<QueryElement>),
}

impl Clone for QueryElement {
    /// A clone of a query element is spec-equal to the original.
    fn clone(&self) -> (r: QueryElement)
        ensures
            r == *self,
        decreases *self,
    {
        match self {
            QueryElement::Part(p) => QueryElement::Part(*p),
            QueryElement::Not(q) => QueryElement::Not(Box::new((**q).clone())),
            QueryElement::Or(l, r) => QueryElement::Or(
                Box::new((**l).clone()),
                Box::new((**r).clone()),
            ),
            QueryElement::And(l, r) => QueryElement::And(
                Box::new((**l).clone()),
                Box::new((**r).clone()),
            ),
            QueryElement::Xor(l, r) => QueryElement::Xor(
                Box::new((**l).clone()),
                Box::new((**r).clone()),
            ),
        }
    }
}

impl QueryElement {
    /// A leaf with access mode `Check`.
    pub fn has(kind: ComponentKind) -> (r: QueryElement)
        ensures
            r == QueryElement::Part(QueryPart { acc: QueryAccess::Check, comp: kind }),
    {
        QueryElement::Part(QueryPart::new(QueryAccess::Check, kind))
    }

    /// A leaf with access mode `Read`.
    pub fn read(kind: ComponentKind) -> (r: QueryElement)
        ensures
            r == QueryElement::Part(QueryPart { acc: QueryAccess::Read, comp: kind }),
    {
        QueryElement::Part(QueryPart::new(QueryAccess::Read, kind))
    }

    /// A leaf with access mode `ReadWrite`.
    pub fn read_write(kind: ComponentKind) -> (r: QueryElement)
        ensures
            r == QueryElement::Part(QueryPart { acc: QueryAccess::ReadWrite, comp: kind }),
    {
        QueryElement::Part(QueryPart::new(QueryAccess::ReadWrite, kind))
    }

    /// The negation of `q` as a set of entities.
    pub fn not(q: QueryElement) -> (r: QueryElement)
        ensures
            r matches QueryElement::Not(b) && *b == q,
    {
        QueryElement::Not(Box::new(q))
    }

    /// The union of `l` and `r` as sets of entities.
    pub fn or(l: QueryElement, r: QueryElement) -> (res: QueryElement)
        ensures
            res matches QueryElement::Or(bl, br) && *bl == l && *br == r,
    {
        QueryElement::Or(Box::new(l), Box::new(r))
    }

    /// The intersection of `l` and `r` as sets of entities.
    pub fn and(l: QueryElement, r: QueryElement) -> (res: QueryElement)
        ensures
            res matches QueryElement::And(bl, br) && *bl == l && *br == r,
    {
        QueryElement::And(Box::new(l), Box::new(r))
    }

    /// The symmetric difference of `l` and `r` as sets of entities.
    pub fn xor(l: QueryElement, r: QueryElement) -> (res: QueryElement)
        ensures
            res matches QueryElement::Xor(bl, br) && *bl == l && *br == r,
    {
        QueryElement::Xor(Box::new(l), Box::new(r))
    }
}

/// A full data-access declaration: an ordered list of top-level elements,
/// implicitly conjoined. A system publishes one of these to document which
/// component kinds it touches and how.
#[derive(Debug)]
pub struct Query {
    pub query: Vec<QueryElement>,
}

impl Clone for Query {
    /// A clone of a query holds the same elements as the original.
    fn clone(&self) -> (r: Query)
        ensures
            r.query@ == self.query@,
    {
        let mut v: Vec<QueryElement> = Vec::new();
        let mut i: usize = 0;
        while i < self.query.len()
            invariant
                i <= self.query.len(),
                v@ =~= self.query@.subrange(0, i as int),
            decreases self.query.len() - i,
        {
            v.push(self.query[i].clone());
            i = i + 1;
        }
        proof {
            assert(v@ =~= self.query@);
        }
        Query { query: v }
    }
}

impl Query {
    /// Creates a query holding the one given element.
    pub fn new(qe: QueryElement) -> (r: Query)
        ensures
            r.query@ =~= seq![qe],
    {
        let mut v: Vec<QueryElement> = Vec::new();
        v.push(qe);
        Query { query: v }
    }

    /// Appends another top-level conjunct and hands the query back for
    /// chaining.
    pub fn and(&mut self, qe: QueryElement) -> (r: &mut Query)
        ensures
            r.query@ == old(self).query@.push(qe),
            *final(self) == *final(r),
    {
        self.query.push(qe);
        self
    }
}

} // verus!
