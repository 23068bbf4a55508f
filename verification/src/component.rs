use vstd::prelude::*;
use vstd::string::StringExecFns;
use crate::generational_id::GenerationalId;

verus! {

/// The component kinds known to this world, one tag per concrete data
/// type. The registry and the query algebra identify a component store by
/// this tag, so heterogeneous stores can live in one container and still
/// be taken out at their concrete type by matching on the tag.
#[derive(Copy, Clone, Debug, Hash, PartialEq, Eq, Structural)]
pub enum ComponentKind {
    Name,
}

/// The decimal digit characters, least digit value first.
pub open spec fn dec_digit(d: int) -> char {
    if d == 0 {
        '0'
    } else if d == 1 {
        '1'
    } else if d == 2 {
        '2'
    } else if d == 3 {
        '3'
    } else if d == 4 {
        '4'
    } else if d == 5 {
        '5'
    } else if d == 6 {
        '6'
    } else if d == 7 {
        '7'
    } else if d == 8 {
        '8'
    } else {
        '9'
    }
}

/// The usual decimal rendering of a nonnegative integer, most significant
/// digit first and without leading zeros (zero itself renders as "0").
pub open spec fn dec_str(n: int) -> Seq<char>
    decreases n,
{
    if n < 10 {
        seq![dec_digit(n)]
    } else {
        dec_str(n / 10).push(dec_digit(n % 10))
    }
}

fn digit_str(d: u32) -> (r: &'static str)
    requires
        d < 10,
    ensures
        r@ == seq![dec_digit(d as int)],
{
    let r: &'static str = if d == 0 {
        "0"
    } else if d == 1 {
        "1"
    } else if d == 2 {
        "2"
    } else if d == 3 {
        "3"
    } else if d == 4 {
        "4"
    } else if d == 5 {
        "5"
    } else if d == 6 {
        "6"
    } else if d == 7 {
        "7"
    } else if d == 8 {
        "8"
    } else {
        "9"
    };
    proof {
        reveal_strlit("0");
        reveal_strlit("1");
        reveal_strlit("2");
        reveal_strlit("3");
        reveal_strlit("4");
        reveal_strlit("5");
        reveal_strlit("6");
        reveal_strlit("7");
        reveal_strlit("8");
        reveal_strlit("9");
        assert(r@ =~= seq![dec_digit(d as int)]);
    }
    r
}

/// Renders an integer in decimal.
pub fn u32_to_decimal(n: u32) -> (r: String)
    ensures
        r@ == dec_str(n as int),
    decreases n,
{
    if n < 10 {
        String::from_str(digit_str(n))
    } else {
        let mut s = u32_to_decimal(n / 10);
        s.append(digit_str(n % 10));
        proof {
            assert(s@ =~= dec_str(n as int));
        }
        s
    }
}

/// The exact text rendering of a component with an owner id and a name:
/// a JSON-like block with the owner's two fields and then the name.
pub open spec fn name_repr(owner: GenerationalId, name: Seq<char>) -> Seq<char> {
    "{\n\towner: {\n\t\tid: "@ + dec_str(owner.index as int) + ",\n\t\tgen: "@ + dec_str(
        owner.generation as int,
    ) + "\n\t},\n\tname: "@ + name + "\n}"@
}

/// A component that gives its owner entity a human-readable name. Like
/// every component it is an owner-tagged data record with no behavior of
/// its own; a freshly constructed one carries the tombstone owner (0, 0)
/// until it is attached.
#[derive(Debug)]
pub struct NameComponent {
    pub owner: GenerationalId,
    pub name: String,
}

impl Clone for NameComponent {
    /// A clone of a name component has the same owner and the same
    /// characters in its name.
    fn clone(&self) -> (r: NameComponent)
        ensures
            r@ == self@,
    {
        NameComponent { owner: self.owner, name: self.name.clone() }
    }
}

/// The mathematical value of a name component: its owner id and the
/// characters of its name.
pub struct NameComponentView {
    pub owner: GenerationalId,
    pub name: Seq<char>,
}

impl View for NameComponent {
    type V = NameComponentView;

    open spec fn view(&self) -> NameComponentView {
        NameComponentView { owner: self.owner, name: self.name@ }
    }
}

impl NameComponent {
    /// Creates a name component that is not yet attached to any entity.
    pub fn new(name: String) -> (r: NameComponent)
        ensures
            r.owner == (GenerationalId { index: 0, generation: 0 }),
            r.name == name,
    {
        NameComponent { owner: GenerationalId::new(0, 0), name }
    }

    /// The id of the entity this component is attached to.
    pub fn get_owner(&self) -> (r: GenerationalId)
        ensures
            r == self.owner,
    {
        self.owner
    }

    /// Re-tags the component with a new owner, leaving its data unchanged.
    pub fn set_owner(&mut self, owner: GenerationalId)
        ensures
            final(self).owner == owner,
            final(self).name == old(self).name,
    {
        self.owner = owner;
    }

    /// The stable, human-readable label of this component kind.
    pub fn type_label(&self) -> (r: String)
        ensures
            r@ == "NameComponent"@,
    {
        String::from_str("NameComponent")
    }

    /// Renders the component as text, exactly in the `name_repr` layout.
    pub fn text_repr(&self) -> (r: String)
        ensures
            r@ == name_repr(self.owner, self.name@),
    {
        let mut s = String::from_str("{\n\towner: {\n\t\tid: ");
        let idx = u32_to_decimal(self.owner.index);
        s.append(idx.as_str());
        s.append(",\n\t\tgen: ");
        let g = u32_to_decimal(self.owner.generation);
        s.append(g.as_str());
        s.append("\n\t},\n\tname: ");
        s.append(self.name.as_str());
        s.append("\n}");
        proof {
            assert(s@ =~= name_repr(self.owner, self.name@));
        }
        s
    }

    /// Duplicates the component into an independent, type-erased copy.
    pub fn dynamic_clone(&self) -> (r: ComponentBox)
        ensures
            r matches ComponentBox::Name(c) && c@ == self@,
    {
        ComponentBox::Name(NameComponent { owner: self.owner, name: self.name.clone() })
    }
}

/// A component value of any kind, tagged by its kind. This is the
/// type-erased form handed across the registry boundary: matching on the
/// tag recovers the concrete component safely.
#[derive(Debug)]
pub enum ComponentBox {
    Name(NameComponent),
}

/// The mathematical value of a type-erased component: the wrapped
/// component's value, under its kind's tag.
pub enum ComponentBoxView {
    Name(NameComponentView),
}

impl View for ComponentBox {
    type V = ComponentBoxView;

    open spec fn view(&self) -> ComponentBoxView {
        match self {
            ComponentBox::Name(c) => ComponentBoxView::Name(c@),
        }
    }
}

impl ComponentBox {
    /// The kind tag of the wrapped component.
    pub open spec fn kind_spec(&self) -> ComponentKind {
        match self {
            ComponentBox::Name(_) => ComponentKind::Name,
        }
    }

    /// The owner id of the wrapped component, whatever its kind.
    pub open spec fn owner_spec(&self) -> GenerationalId {
        match self {
            ComponentBox::Name(c) => c.owner,
        }
    }

    /// Reports which kind of component is inside.
    pub fn kind(&self) -> (r: ComponentKind)
        ensures
            r == self.kind_spec(),
    {
        match self {
            ComponentBox::Name(_) => ComponentKind::Name,
        }
    }

    /// The id of the entity the wrapped component is attached to.
    pub fn get_owner(&self) -> (r: GenerationalId)
        ensures
            r == self.owner_spec(),
    {
        match self {
            ComponentBox::Name(c) => c.get_owner(),
        }
    }
}

} // verus!
