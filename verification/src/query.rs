//! The terms of a whole query and the frozen form in which the store walks
//! them.

use vstd::prelude::*;
use crate::access::{Access, AccessSets};
use crate::entity::{ComponentId, Entity};
use crate::group::OrTerm;
use crate::term::{Term, any_term_matches, term_matches, terms_decidable, terms_match};

verus! {

/// One position of a query: a single term, an ordered group of terms that all
/// have to match, or an or-group.
pub enum QueryTerm {
    Single(Term),
    Group(Vec<Term>),
    Or(OrTerm),
}

impl QueryTerm {
    /// The terms that make up this position, in order.
    pub open spec fn leaves(self) -> Seq<Term> {
        match self {
            QueryTerm::Single(term) => seq![term],
            QueryTerm::Group(terms) => terms@,
            QueryTerm::Or(group) => group.terms(),
        }
    }

    /// Whether a row with the component set `set` meets this position.
    pub open spec fn matches_set(self, set: Set<Entity>) -> bool {
        match self {
            QueryTerm::Single(term) => term_matches(term, set),
            QueryTerm::Group(terms) => terms_match(terms@, set),
            QueryTerm::Or(group) => any_term_matches(group.terms(), set),
        }
    }

    /// Whether this position is an ordered group.
    pub fn is_group(&self) -> (b: bool)
        ensures
            b == (self is Group),
    {
        match self {
            QueryTerm::Group(_) => true,
            _ => false,
        }
    }

    /// Number of terms of an ordered group.
    pub fn group_len(&self) -> (n: usize)
        requires
            self is Group,
        ensures
            n == self.leaves().len(),
    {
        match self {
            QueryTerm::Group(terms) => terms.len(),
            _ => 0,
        }
    }

    /// The term at `index` of an ordered group.
    pub fn group_term(&self, index: usize) -> (term: Term)
        requires
            self is Group,
            index < self.leaves().len(),
        ensures
            term == self.leaves()[index as int],
    {
        match self {
            QueryTerm::Group(terms) => terms[index],
            _ => Term::read(),
        }
    }

    /// Appends the terms of this position to `out`.
    pub fn push_leaves(&self, out: &mut Vec<Term>)
        ensures
            final(out)@ == old(out)@ + self.leaves(),
    {
        match self {
            QueryTerm::Single(term) => {
                out.push(*term);
                assert(out@ =~= old(out)@ + self.leaves());
            },
            QueryTerm::Group(terms) => {
                push_terms(out, terms);
            },
            QueryTerm::Or(group) => {
                push_terms(out, group.alternatives());
            },
        }
    }

    /// Whether a row with the components `components` meets this position.
    pub fn matches(&self, components: &Vec<ComponentId>) -> (b: bool)
        requires
            terms_decidable(self.leaves()),
        ensures
            b == self.matches_set(components@.to_set()),
    {
        match self {
            QueryTerm::Single(term) => {
                assert(self.leaves()[0] == *term);
                term.matches(components)
            },
            QueryTerm::Group(terms) => Term::matches_component_set(terms, components),
            QueryTerm::Or(group) => group.matches_component_set(components),
        }
    }
}

/// Appends `terms` to `out`.
pub fn push_terms(out: &mut Vec<Term>, terms: &Vec<Term>)
    ensures
        final(out)@ == old(out)@ + terms@,
{
    let mut i: usize = 0;
    while i < terms.len()
        invariant
            i <= terms.len(),
            out@ == old(out)@ + terms@.take(i as int),
        decreases terms.len() - i,
    {
        out.push(terms[i]);
        proof {
            assert(out@ =~= old(out)@ + terms@.take(i + 1));
        }
        i = i + 1;
    }
    proof {
        assert(terms@.take(terms.len() as int) =~= terms@);
    }
}

/// The terms of all positions, in order.
pub open spec fn flatten(slots: Seq<QueryTerm>) -> Seq<Term>
    decreases slots.len(),
{
    if slots.len() == 0 {
        Seq::empty()
    } else {
        flatten(slots.drop_last()) + slots.last().leaves()
    }
}

/// Every term of a query: those of its positions, then its filters.
pub open spec fn requirements(slots: Seq<QueryTerm>, filters: Seq<Term>) -> Seq<Term> {
    flatten(slots) + filters
}

/// Whether every term names its component.
pub open spec fn all_resolved(terms: Seq<Term>) -> bool {
    forall|i: int| 0 <= i < terms.len() ==> (#[trigger] terms[i]).id.is_some()
}

/// Whether the term at `index` is the first that does not name its component.
pub open spec fn first_unresolved(terms: Seq<Term>, index: int) -> bool {
    &&& 0 <= index < terms.len()
    &&& terms[index].id.is_none()
    &&& forall|i: int| 0 <= i < index ==> (#[trigger] terms[i]).id.is_some()
}

/// Whether the term at `index` cannot stand beside the terms before it.
pub open spec fn conflict_at(terms: Seq<Term>, index: int) -> bool {
    AccessSets::empty().with_terms(terms.take(index)).conflicts_with(terms[index])
}

/// Whether no term conflicts with the terms before it.
pub open spec fn conflict_free(terms: Seq<Term>) -> bool {
    forall|i: int| 0 <= i < terms.len() ==> !#[trigger] conflict_at(terms, i)
}

/// Whether the term at `index` is the first that conflicts with the terms
/// before it.
pub open spec fn first_conflict(terms: Seq<Term>, index: int) -> bool {
    &&& 0 <= index < terms.len()
    &&& conflict_at(terms, index)
    &&& forall|i: int| 0 <= i < index ==> !#[trigger] conflict_at(terms, i)
}

/// Whether a row with the component set `set` meets every position.
pub open spec fn slots_match(slots: Seq<QueryTerm>, set: Set<Entity>) -> bool {
    forall|i: int| 0 <= i < slots.len() ==> (#[trigger] slots[i]).matches_set(set)
}

/// Why a query could not be built.
#[derive(Clone, Copy, Debug, PartialEq, Eq, Structural)]
pub enum QueryError {
    /// A term was never given its component.
    UnresolvedTerm {
        /// Position of the first such term among all terms of the query.
        index: usize,
    },
    /// Two terms ask for access to the same component that cannot be had
    /// together: both write it, or one writes and the other reads it.
    AccessConflict {
        /// The component of the first term that conflicts with one before it.
        component: ComponentId,
    },
}

/// A query in its frozen form: the positions, the filters and the access that
/// they declare together.
pub struct QueryState {
    slots: Vec<QueryTerm>,
    terms: Vec<Term>,
    access: Access,
}

impl QueryState {
    /// The positions.
    pub closed spec fn slots(&self) -> Seq<QueryTerm> {
        self.slots@
    }

    /// The filters.
    pub closed spec fn filters(&self) -> Seq<Term> {
        self.terms@
    }

    /// The access that the terms declare.
    pub closed spec fn access(&self) -> AccessSets {
        self.access@
    }

    /// Every term names its component, no term conflicts with another and
    /// the access is that of all terms.
    pub open spec fn wf(&self) -> bool {
        &&& all_resolved(requirements(self.slots(), self.filters()))
        &&& conflict_free(requirements(self.slots(), self.filters()))
        &&& self.access() == AccessSets::empty().with_terms(
            requirements(self.slots(), self.filters()),
        )
    }

    /// Whether a row with the component set `set` matches: it meets every
    /// position and every filter.
    pub open spec fn matches_set(&self, set: Set<Entity>) -> bool {
        slots_match(self.slots(), set) && terms_match(self.filters(), set)
    }

    /// Puts together a query whose terms were checked.
    pub(crate) fn new(slots: Vec<QueryTerm>, terms: Vec<Term>, access: Access) -> (state: QueryState)
        ensures
            state.slots() == slots@,
            state.filters() == terms@,
            state.access() == access@,
    {
        QueryState { slots, terms, access }
    }

    /// The positions.
    pub fn positions(&self) -> (slots: &Vec<QueryTerm>)
        ensures
            slots@ == self.slots(),
    {
        &self.slots
    }

    /// The filters.
    pub fn terms(&self) -> (terms: &Vec<Term>)
        ensures
            terms@ == self.filters(),
    {
        &self.terms
    }

    /// The access that the terms declare.
    pub fn component_access(&self) -> (access: &Access)
        ensures
            access@ == self.access(),
    {
        &self.access
    }

    /// Whether a row with the components `components` matches the query.
    pub fn matches(&self, components: &Vec<ComponentId>) -> (b: bool)
        requires
            self.wf(),
        ensures
            b == self.matches_set(components@.to_set()),
    {
        proof {
            lemma_resolved_parts(self.slots@, self.terms@);
        }
        let mut i: usize = 0;
        while i < self.slots.len()
            invariant
                i <= self.slots.len(),
                forall|j: int|
                    0 <= j < self.slots@.len() ==> terms_decidable(
                        (#[trigger] self.slots@[j]).leaves(),
                    ),
                forall|j: int|
                    0 <= j < i ==> (#[trigger] self.slots@[j]).matches_set(components@.to_set()),
            decreases self.slots.len() - i,
        {
            if !self.slots[i].matches(components) {
                return false;
            }
            i = i + 1;
        }
        Term::matches_component_set(&self.terms, components)
    }
}

/// Where all terms of a query name their components, so do the terms of each
/// position and the filters.
pub proof fn lemma_resolved_parts(slots: Seq<QueryTerm>, filters: Seq<Term>)
    requires
        all_resolved(requirements(slots, filters)),
    ensures
        terms_decidable(filters),
        all_resolved(filters),
        all_resolved(flatten(slots)),
        forall|j: int| 0 <= j < slots.len() ==> terms_decidable((#[trigger] slots[j]).leaves()),
        forall|j: int| 0 <= j < slots.len() ==> all_resolved((#[trigger] slots[j]).leaves()),
    decreases slots.len(),
{
    let all = requirements(slots, filters);
    let flat = flatten(slots);
    assert forall|i: int| 0 <= i < filters.len() implies (#[trigger] filters[i]).id.is_some() by {
        assert(all[flat.len() + i] == filters[i]);
    }
    assert forall|i: int| 0 <= i < flat.len() implies (#[trigger] flat[i]).id.is_some() by {
        assert(all[i] == flat[i]);
    }
    if slots.len() > 0 {
        let rest = slots.drop_last();
        let last = slots.last().leaves();
        let before = flatten(rest);
        assert forall|i: int| 0 <= i < before.len() implies (#[trigger] before[i]).id.is_some() by {
            assert(flat[i] == before[i]);
        }
        assert(requirements(rest, Seq::empty()) =~= before);
        lemma_resolved_parts(rest, Seq::empty());
        assert forall|j: int| 0 <= j < slots.len() implies all_resolved(
            (#[trigger] slots[j]).leaves(),
        ) by {
            if j < rest.len() {
                assert(rest[j] == slots[j]);
            } else {
                assert forall|i: int| 0 <= i < last.len() implies (#[trigger] last[i]).id.is_some() by {
                    assert(flat[before.len() + i] == last[i]);
                }
            }
        }
        assert forall|j: int| 0 <= j < slots.len() implies terms_decidable(
            (#[trigger] slots[j]).leaves(),
        ) by {
            assert(all_resolved(slots[j].leaves()));
        }
    }
}

} // verus!
