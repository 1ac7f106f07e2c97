//! Or-groups: terms of which one has to match.

use vstd::prelude::*;
use crate::access::{Access, terms_accessible};
use crate::entity::ComponentId;
use crate::table::{Entries, entries_get, entries_keys};
use crate::term::{Term, any_term_matches, term_matches, terms_decidable};
use crate::world::Row;

verus! {

/// What is known of one component while a query walks the rows: how the
/// component is stored and, once a row was looked at, the value found there.
#[derive(Clone, Copy, Debug, PartialEq, Eq, Structural)]
pub struct ComponentTermState {
    /// Whether the component is stored densely, row by row.
    pub dense: bool,
    /// The value on the row looked at last, if the row had the component.
    pub value: Option<usize>,
}

impl ComponentTermState {
    /// Whether the component is stored densely.
    pub fn dense(&self) -> (b: bool)
        ensures
            b == self.dense,
    {
        self.dense
    }
}

/// The state of one alternative of an or-group.
#[derive(Clone, Copy, Debug, PartialEq, Eq, Structural)]
pub struct OrTermState {
    pub component: ComponentTermState,
    /// Whether the row looked at last meets this alternative.
    pub matches: bool,
}

impl OrTermState {
    /// Whether the alternative can be walked densely: it can where it does
    /// not match, or where its component is stored densely.
    #[inline]
    pub fn dense(&self) -> (b: bool)
        ensures
            b == (!self.matches || self.component.dense),
    {
        !self.matches || self.component.dense()
    }
}

/// A group of terms of which at least one has to match. The group may also
/// fetch, for each alternative that matches, the value found.
pub struct OrTerm {
    terms: Vec<Term>,
    fetch: bool,
}

/// The state that `set_table` leaves for the alternative `term` on a row with
/// the components `row`.
pub open spec fn state_on_row(term: Term, before: OrTermState, row: Entries<usize>) -> OrTermState {
    if term_matches(term, entries_keys(row).to_set()) {
        OrTermState {
            matches: true,
            component: ComponentTermState {
                value: if term.id.is_some() {
                    entries_get(row, term.id.unwrap())
                } else {
                    None
                },
                ..before.component
            },
        }
    } else {
        OrTermState { matches: false, ..before }
    }
}

impl OrTerm {
    /// The alternatives.
    pub closed spec fn terms(&self) -> Seq<Term> {
        self.terms@
    }

    /// Whether the group fetches the values of the alternatives that match.
    pub closed spec fn fetches(&self) -> bool {
        self.fetch
    }

    /// A group that only filters: a row matches if it meets one of `terms`.
    pub fn or(terms: Vec<Term>) -> (group: OrTerm)
        ensures
            group.terms() == terms@,
            !group.fetches(),
    {
        OrTerm { terms, fetch: false }
    }

    /// A group that filters and fetches whichever of `terms` a row meets.
    pub fn any_of(terms: Vec<Term>) -> (group: OrTerm)
        ensures
            group.terms() == terms@,
            group.fetches(),
    {
        OrTerm { terms, fetch: true }
    }

    /// The alternatives.
    pub fn alternatives(&self) -> (terms: &Vec<Term>)
        ensures
            terms@ == self.terms(),
    {
        &self.terms
    }

    /// The alternatives, to be changed in place.
    pub fn alternatives_mut(&mut self) -> (terms: &mut Vec<Term>)
        ensures
            terms@ == old(self).terms(),
            final(self).terms() == final(terms)@,
            final(self).fetches() == old(self).fetches(),
    {
        &mut self.terms
    }

    /// Whether the group fetches.
    pub fn is_fetching(&self) -> (b: bool)
        ensures
            b == self.fetches(),
    {
        self.fetch
    }

    /// One state per alternative, none of them matching yet.
    #[inline]
    pub fn init_state(&self) -> (states: Vec<OrTermState>)
        ensures
            states@.len() == self.terms().len(),
            forall|i: int|
                0 <= i < states@.len() ==> #[trigger] states@[i] == (OrTermState {
                    component: ComponentTermState { dense: true, value: None },
                    matches: false,
                }),
    {
        let mut states: Vec<OrTermState> = Vec::new();
        let mut i: usize = 0;
        while i < self.terms.len()
            invariant
                i <= self.terms.len(),
                states@.len() == i,
                forall|j: int|
                    0 <= j < states@.len() ==> #[trigger] states@[j] == (OrTermState {
                        component: ComponentTermState { dense: true, value: None },
                        matches: false,
                    }),
            decreases self.terms.len() - i,
        {
            states.push(
                OrTermState {
                    component: ComponentTermState { dense: true, value: None },
                    matches: false,
                },
            );
            i = i + 1;
        }
        states
    }

    /// Looks at `row`: each state comes to say whether the row meets its
    /// alternative and, where it does, which value the row has for it.
    #[inline]
    pub fn set_table(&self, states: &mut Vec<OrTermState>, row: &Row)
        requires
            row.wf(),
            old(states)@.len() == self.terms().len(),
            terms_decidable(self.terms()),
        ensures
            final(states)@.len() == self.terms().len(),
            forall|i: int|
                0 <= i < self.terms().len() ==> #[trigger] final(states)@[i] == state_on_row(
                    self.terms()[i],
                    old(states)@[i],
                    row@,
                ),
    {
        let ids = row.component_ids();
        let mut i: usize = 0;
        while i < self.terms.len()
            invariant
                i <= self.terms.len(),
                row.wf(),
                ids@ == entries_keys(row@),
                states@.len() == self.terms@.len(),
                terms_decidable(self.terms@),
                forall|j: int|
                    0 <= j < i ==> #[trigger] states@[j] == state_on_row(
                        self.terms@[j],
                        old(states)@[j],
                        row@,
                    ),
                forall|j: int| i <= j < states@.len() ==> #[trigger] states@[j] == old(states)@[j],
            decreases self.terms.len() - i,
        {
            let term = self.terms[i];
            let matches = term.matches(&ids);
            let mut state = states[i];
            state.matches = matches;
            if matches {
                state.component.value = if term.is_resolved() {
                    row.get(term.id())
                } else {
                    None
                };
            }
            states[i] = state;
            i = i + 1;
        }
    }

    /// What the group fetches from the row looked at last: for a fetching
    /// group one entry per alternative, the value where the alternative
    /// matches; for a group that only filters, nothing.
    #[inline(always)]
    pub fn fetch(&self, states: &Vec<OrTermState>) -> (fetched: Vec<Option<usize>>)
        requires
            states@.len() == self.terms().len(),
        ensures
            !self.fetches() ==> fetched@.len() == 0,
            self.fetches() ==> fetched@.len() == states@.len() && forall|i: int|
                0 <= i < states@.len() ==> #[trigger] fetched@[i] == if states@[i].matches {
                    states@[i].component.value
                } else {
                    None
                },
    {
        let mut fetched: Vec<Option<usize>> = Vec::new();
        if self.fetch {
            let mut i: usize = 0;
            while i < states.len()
                invariant
                    i <= states.len(),
                    fetched@.len() == i,
                    forall|j: int|
                        0 <= j < i ==> #[trigger] fetched@[j] == if states@[j].matches {
                            states@[j].component.value
                        } else {
                            None
                        },
                decreases states.len() - i,
            {
                if states[i].matches {
                    fetched.push(states[i].component.value);
                } else {
                    fetched.push(None);
                }
                i = i + 1;
            }
        }
        fetched
    }

    /// Whether the row looked at last meets at least one alternative.
    #[inline(always)]
    pub fn filter_fetch(&self, states: &Vec<OrTermState>) -> (b: bool)
        ensures
            b == exists|i: int| 0 <= i < states@.len() && (#[trigger] states@[i]).matches,
    {
        let mut i: usize = 0;
        while i < states.len()
            invariant
                i <= states.len(),
                forall|j: int| 0 <= j < i ==> !(#[trigger] states@[j]).matches,
            decreases states.len() - i,
        {
            if states[i].matches {
                return true;
            }
            i = i + 1;
        }
        false
    }

    /// Declares the access of the group: what was declared before together
    /// with all that any alternative reads or writes, whichever alternative a
    /// row may come to meet.
    #[inline]
    pub fn update_component_access(&self, access: &mut Access)
        requires
            terms_accessible(self.terms()),
        ensures
            final(access)@ == old(access)@.with_terms(self.terms()),
    {
        access.add_terms(&self.terms);
    }

    /// Whether a row with the components `components` meets the group, which
    /// it does exactly if it meets at least one alternative.
    #[inline]
    pub fn matches_component_set(&self, components: &Vec<ComponentId>) -> (b: bool)
        requires
            terms_decidable(self.terms()),
        ensures
            b == any_term_matches(self.terms(), components@.to_set()),
    {
        Term::matches_any(&self.terms, components)
    }
}

} // verus!
