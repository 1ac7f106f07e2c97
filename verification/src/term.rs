//! Terms: the units of which a query is made. A term names a component, says
//! how the query reads it and how its presence on a row decides whether the
//! row matches.

use vstd::prelude::*;
use crate::entity::Entity;

verus! {

/// How a query reaches the data of a component.
#[derive(Clone, Copy, Debug, PartialEq, Eq, Structural)]
pub enum TermAccess {
    /// The query only looks at the presence of the component.
    NoAccess,
    /// The query reads the data of the component.
    Read,
    /// The query changes the data of the component.
    Write,
}

/// How the presence of a component on a row decides whether the row matches.
#[derive(Clone, Copy, Debug, PartialEq, Eq, Structural)]
pub enum TermOperator {
    /// The row must have the component.
    With,
    /// The row must not have the component.
    Without,
    /// The row matches either way.
    Any,
}

/// One unit of access: a component, which may still be unresolved, an access
/// mode and an operator.
#[derive(Clone, Copy, Debug, PartialEq, Eq, Structural)]
pub struct Term {
    pub id: Option<Entity>,
    pub access: TermAccess,
    pub oper: TermOperator,
}

/// Whether `components` lists `id`.
pub fn contains_id(components: &Vec<Entity>, id: Entity) -> (b: bool)
    ensures
        b == components@.to_set().contains(id),
{
    let mut i: usize = 0;
    while i < components.len()
        invariant
            i <= components.len(),
            forall|j: int| 0 <= j < i ==> components@[j] != id,
        decreases components.len() - i,
    {
        if components[i] == id {
            assert(components@.contains(id));
            return true;
        }
        i = i + 1;
    }
    assert(!components@.contains(id));
    false
}

/// Whether a row with the component set `set` meets the term. A term that
/// asks for presence or absence has to be resolved for this to mean anything.
pub open spec fn term_matches(term: Term, set: Set<Entity>) -> bool {
    match term.oper {
        TermOperator::With => set.contains(term.component_id().unwrap()),
        TermOperator::Without => !set.contains(term.component_id().unwrap()),
        TermOperator::Any => true,
    }
}

/// Whether a row with the component set `set` meets every term.
pub open spec fn terms_match(terms: Seq<Term>, set: Set<Entity>) -> bool {
    forall|i: int| 0 <= i < terms.len() ==> term_matches(#[trigger] terms[i], set)
}

/// Whether a row with the component set `set` meets at least one term.
pub open spec fn any_term_matches(terms: Seq<Term>, set: Set<Entity>) -> bool {
    exists|i: int| 0 <= i < terms.len() && term_matches(#[trigger] terms[i], set)
}

/// Whether every term that asks for presence or absence names its component.
pub open spec fn terms_decidable(terms: Seq<Term>) -> bool {
    forall|i: int|
        0 <= i < terms.len() ==> (#[trigger] terms[i]).oper == TermOperator::Any
            || terms[i].component_id().is_some()
}

impl Term {
    /// The component of the term, if the term is resolved.
    pub open spec fn component_id(self) -> Option<Entity> {
        self.id
    }

    /// A term that names `id` and neither reads it nor asks for its presence.
    pub fn none_id(id: Entity) -> (t: Term)
        ensures
            t.component_id() == Some(id),
            t.access == TermAccess::NoAccess,
            t.oper == TermOperator::Any,
    {
        Term { id: Some(id), access: TermAccess::NoAccess, oper: TermOperator::Any }
    }

    /// A term that reads `id`, which has to be present.
    pub fn read_id(id: Entity) -> (t: Term)
        ensures
            t.component_id() == Some(id),
            t.access == TermAccess::Read,
            t.oper == TermOperator::With,
    {
        Term { id: Some(id), access: TermAccess::Read, oper: TermOperator::With }
    }

    pub open spec fn read_spec() -> Term {
        Term { id: None, access: TermAccess::Read, oper: TermOperator::With }
    }

    /// A term that reads a component still to be named.
    #[verifier::when_used_as_spec(read_spec)]
    pub fn read() -> (t: Term)
        ensures
            t == Term::read_spec(),
            t.component_id().is_none(),
            t.access == TermAccess::Read,
            t.oper == TermOperator::With,
    {
        Term { id: None, access: TermAccess::Read, oper: TermOperator::With }
    }

    /// A term that writes `id`, which has to be present.
    pub fn write_id(id: Entity) -> (t: Term)
        ensures
            t.component_id() == Some(id),
            t.access == TermAccess::Write,
            t.oper == TermOperator::With,
    {
        Term { id: Some(id), access: TermAccess::Write, oper: TermOperator::With }
    }

    /// A term that writes a component still to be named.
    pub fn write() -> (t: Term)
        ensures
            t.component_id().is_none(),
            t.access == TermAccess::Write,
            t.oper == TermOperator::With,
    {
        Term { id: None, access: TermAccess::Write, oper: TermOperator::With }
    }

    pub open spec fn with_id_spec(id: Entity) -> Term {
        Term { id: Some(id), access: TermAccess::NoAccess, oper: TermOperator::With }
    }

    pub open spec fn without_id_spec(id: Entity) -> Term {
        Term { id: Some(id), access: TermAccess::NoAccess, oper: TermOperator::Without }
    }

    /// A term that asks for the presence of `id` without reading it.
    #[verifier::when_used_as_spec(with_id_spec)]
    pub fn with_id(id: Entity) -> (t: Term)
        ensures
            t == Term::with_id_spec(id),
            t.component_id() == Some(id),
            t.access == TermAccess::NoAccess,
            t.oper == TermOperator::With,
    {
        Term { id: Some(id), access: TermAccess::NoAccess, oper: TermOperator::With }
    }

    /// A term that asks for the absence of `id`.
    #[verifier::when_used_as_spec(without_id_spec)]
    pub fn without_id(id: Entity) -> (t: Term)
        ensures
            t == Term::without_id_spec(id),
            t.component_id() == Some(id),
            t.access == TermAccess::NoAccess,
            t.oper == TermOperator::Without,
    {
        Term { id: Some(id), access: TermAccess::NoAccess, oper: TermOperator::Without }
    }

    /// Names the component of the term.
    pub fn set_id(&mut self, id: Entity)
        ensures
            final(self).component_id() == Some(id),
            final(self).access == old(self).access,
            final(self).oper == old(self).oper,
    {
        self.id = Some(id);
    }

    /// Whether the term names its component.
    pub fn is_resolved(&self) -> (b: bool)
        ensures
            b == self.component_id().is_some(),
    {
        self.id.is_some()
    }

    /// The component of a resolved term.
    pub fn id(&self) -> (id: Entity)
        requires
            self.component_id().is_some(),
        ensures
            self.component_id() == Some(id),
    {
        self.id.unwrap()
    }

    /// Whether a row with the components `components` meets this term.
    pub fn matches(&self, components: &Vec<Entity>) -> (b: bool)
        requires
            self.oper == TermOperator::Any || self.component_id().is_some(),
        ensures
            b == term_matches(*self, components@.to_set()),
    {
        match self.oper {
            TermOperator::With => contains_id(components, self.id()),
            TermOperator::Without => !contains_id(components, self.id()),
            TermOperator::Any => true,
        }
    }

    /// Whether a row with the components `components` meets every term of
    /// `terms`.
    pub fn matches_component_set(terms: &Vec<Term>, components: &Vec<Entity>) -> (b: bool)
        requires
            terms_decidable(terms@),
        ensures
            b == terms_match(terms@, components@.to_set()),
    {
        let mut i: usize = 0;
        while i < terms.len()
            invariant
                i <= terms.len(),
                terms_decidable(terms@),
                forall|j: int| 0 <= j < i ==> term_matches(#[trigger] terms@[j], components@.to_set()),
            decreases terms.len() - i,
        {
            if !terms[i].matches(components) {
                return false;
            }
            i = i + 1;
        }
        true
    }

    /// Whether a row with the components `components` meets at least one
    /// term of `terms`.
    pub fn matches_any(terms: &Vec<Term>, components: &Vec<Entity>) -> (b: bool)
        requires
            terms_decidable(terms@),
        ensures
            b == any_term_matches(terms@, components@.to_set()),
    {
        let mut i: usize = 0;
        while i < terms.len()
            invariant
                i <= terms.len(),
                terms_decidable(terms@),
                forall|j: int|
                    0 <= j < i ==> !term_matches(#[trigger] terms@[j], components@.to_set()),
            decreases terms.len() - i,
        {
            if terms[i].matches(components) {
                return true;
            }
            i = i + 1;
        }
        false
    }
}

/// A query that asks for the presence of `with` and the absence of `without`
/// matches exactly the rows that have the one and lack the other; so a row
/// with `with` alone matches and a row with both does not.
pub proof fn lemma_with_and_without(with: Entity, without: Entity, set: Set<Entity>, terms: Seq<Term>)
    requires
        terms.len() == 2,
        terms[0].oper == TermOperator::With,
        terms[0].component_id() == Some(with),
        terms[1].oper == TermOperator::Without,
        terms[1].component_id() == Some(without),
    ensures
        terms_match(terms, set) <==> set.contains(with) && !set.contains(without),
        with != without ==> terms_match(terms, set![with]) && !terms_match(
            terms,
            set![with, without],
        ),
{
    if terms_match(terms, set) {
        assert(term_matches(terms[0], set));
        assert(term_matches(terms[1], set));
    }
    if with != without {
        let both = set![with, without];
        if terms_match(terms, both) {
            assert(term_matches(terms[1], both));
        }
        let one = set![with];
        assert(term_matches(terms[0], one));
        assert(term_matches(terms[1], one));
    }
}

} // verus!
