//! Building a query term by term.

use vstd::prelude::*;
use crate::access::{Access, AccessSets, lemma_access_step};
use crate::component::Component;
use crate::entity::{Entity, PLACEHOLDER_ID};
use crate::query::{
    QueryError,
    QueryState,
    QueryTerm,
    all_resolved,
    conflict_at,
    conflict_free,
    first_conflict,
    first_unresolved,
    flatten,
    requirements,
};
use crate::term::Term;
use crate::world::World;
use crate::world_model::registry_get;

verus! {

/// A term under construction, together with the store in which component
/// kinds are registered.
pub struct TermBuilder<'w> {
    pub term: &'w mut Term,
    pub world: &'w mut World,
}

impl<'w> TermBuilder<'w> {
    /// A handle on `term`.
    pub fn new(term: &'w mut Term, world: &'w mut World) -> (builder: Self)
        ensures
            *builder.term == *old(term),
            *final(builder.term) == *final(term),
            *builder.world == *old(world),
            *final(builder.world) == *final(world),
    {
        TermBuilder { term, world }
    }

    /// Names the component of the term.
    pub fn set_id(&mut self, id: Entity)
        ensures
            final(self).term.id == Some(id),
            final(self).term.access == old(self).term.access,
            final(self).term.oper == old(self).term.oper,
            *final(self).world == *old(self).world,
            *final(final(self).term) == *final(old(self).term),
            *final(final(self).world) == *final(old(self).world),
    {
        self.term.set_id(id);
    }

    /// Gives the term the component that is registered under `key`, which is
    /// registered now if it was not.
    pub fn set_key(&mut self, key: u64)
        requires
            old(self).world.wf(),
            registry_get(old(self).world@.registry, key).is_some() || old(self).world@.next_id
                < PLACEHOLDER_ID,
        ensures
            final(self).world.wf(),
            final(self).world@ == old(self).world@.with_component(key),
            final(self).term.id == registry_get(final(self).world@.registry, key),
            final(self).term.access == old(self).term.access,
            final(self).term.oper == old(self).term.oper,
            *final(final(self).term) == *final(old(self).term),
            *final(final(self).world) == *final(old(self).world),
    {
        let id = self.world.init_component(key);
        self.term.set_id(id);
    }

    /// Gives the term the component kind `T`, which is registered now if it
    /// was not.
    pub fn set<T: Component>(&mut self)
        requires
            old(self).world.wf(),
            old(self).world@.next_id < PLACEHOLDER_ID,
        ensures
            final(self).world.wf(),
            exists|key: u64|
                final(self).world@ == old(self).world@.with_component(key) && final(self).term.id
                    == #[trigger] registry_get(final(self).world@.registry, key),
            final(self).term.access == old(self).term.access,
            final(self).term.oper == old(self).term.oper,
            *final(final(self).term) == *final(old(self).term),
            *final(final(self).world) == *final(old(self).world),
    {
        let key = T::type_key();
        self.set_key(key);
    }
}

/// A query under construction: positions that were laid out when the builder
/// was made, and filters that are added one by one.
pub struct QueryBuilder<'w> {
    pub slots: Vec<QueryTerm>,
    pub terms: Vec<Term>,
    pub world: &'w mut World,
    /// Whether a query was built; a builder that built takes no more terms.
    pub frozen: bool,
}

/// What building a query from these terms gives: the first term without a
/// component stops it, else the first term that conflicts with one before it.
pub open spec fn build_outcome(terms: Seq<Term>, outcome: Result<QueryState, QueryError>) -> bool {
    match outcome {
        Ok(state) => all_resolved(terms) && conflict_free(terms),
        Err(QueryError::UnresolvedTerm { index }) => first_unresolved(terms, index as int),
        Err(QueryError::AccessConflict { component }) => all_resolved(terms) && exists|k: int|
            #[trigger] first_conflict(terms, k) && terms[k].id == Some(component),
    }
}

impl<'w> QueryBuilder<'w> {
    /// A builder for a query with the positions `slots` and, so far, no
    /// filter.
    pub fn new(world: &'w mut World, slots: Vec<QueryTerm>) -> (builder: Self)
        ensures
            builder.slots@ == slots@,
            builder.terms@ == Seq::<Term>::empty(),
            !builder.frozen,
            *builder.world == *old(world),
            *final(builder.world) == *final(world),
    {
        QueryBuilder { slots, terms: Vec::new(), world, frozen: false }
    }

    /// Checks the terms and freezes them into a query. The terms have to name
    /// their components, and no two of them may ask for access to the same
    /// component that cannot be had together. Where the check fails the
    /// builder is left as it was, so that building again fails in the same
    /// way until the terms are changed. Where it succeeds the terms move into
    /// the query and the builder is frozen.
    pub fn build(&mut self) -> (outcome: Result<QueryState, QueryError>)
        requires
            !old(self).frozen,
        ensures
            build_outcome(requirements(old(self).slots@, old(self).terms@), outcome),
            *final(self).world == *old(self).world,
            *final(final(self).world) == *final(old(self).world),
            outcome is Err ==> final(self).slots == old(self).slots && final(self).terms == old(
                self,
            ).terms && !final(self).frozen,
            outcome is Ok ==> final(self).frozen && final(self).slots@.len() == 0
                && final(self).terms@.len() == 0 && outcome.unwrap().wf() && outcome.unwrap().slots()
                == old(self).slots@ && outcome.unwrap().filters() == old(self).terms@,
    {
        let mut all: Vec<Term> = Vec::new();
        let mut i: usize = 0;
        proof {
            assert(self.slots@.take(0) =~= Seq::empty());
        }
        while i < self.slots.len()
            invariant
                i <= self.slots.len(),
                *self == *old(self),
                all@ == flatten(self.slots@.take(i as int)),
            decreases self.slots.len() - i,
        {
            self.slots[i].push_leaves(&mut all);
            proof {
                assert(self.slots@.take(i + 1).drop_last() =~= self.slots@.take(i as int));
            }
            i = i + 1;
        }
        proof {
            assert(self.slots@.take(self.slots.len() as int) =~= self.slots@);
        }
        crate::query::push_terms(&mut all, &self.terms);
        let mut k: usize = 0;
        while k < all.len()
            invariant
                k <= all.len(),
                !old(self).frozen,
                *self == *old(self),
                all@ == requirements(old(self).slots@, old(self).terms@),
                forall|j: int| 0 <= j < k ==> (#[trigger] all@[j]).id.is_some(),
            decreases all.len() - k,
        {
            if !all[k].is_resolved() {
                return Err(QueryError::UnresolvedTerm { index: k });
            }
            k = k + 1;
        }
        let mut access = Access::new();
        let mut k: usize = 0;
        proof {
            assert(crate::access::reads_of(all@.take(0)) =~= Set::empty());
            assert(crate::access::writes_of(all@.take(0)) =~= Set::empty());
            assert(AccessSets::empty().with_terms(all@.take(0)).reads =~= Set::empty());
            assert(AccessSets::empty().with_terms(all@.take(0)).writes =~= Set::empty());
        }
        while k < all.len()
            invariant
                k <= all.len(),
                !old(self).frozen,
                *self == *old(self),
                all@ == requirements(old(self).slots@, old(self).terms@),
                all_resolved(all@),
                access@ == AccessSets::empty().with_terms(all@.take(k as int)),
                forall|j: int| 0 <= j < k ==> !#[trigger] conflict_at(all@, j),
            decreases all.len() - k,
        {
            if access.conflicts_with(&all[k]) {
                assert(first_conflict(all@, k as int));
                return Err(QueryError::AccessConflict { component: all[k].id() });
            }
            proof {
                lemma_access_step(all@, k as int);
            }
            access.add_term(&all[k]);
            proof {
                assert(access@.reads =~= AccessSets::empty().with_terms(all@.take(k + 1)).reads);
                assert(access@.writes =~= AccessSets::empty().with_terms(all@.take(k + 1)).writes);
            }
            k = k + 1;
        }
        proof {
            assert(all@.take(all.len() as int) =~= all@);
        }
        let mut slots: Vec<QueryTerm> = Vec::new();
        let mut terms: Vec<Term> = Vec::new();
        core::mem::swap(&mut self.slots, &mut slots);
        core::mem::swap(&mut self.terms, &mut terms);
        self.frozen = true;
        Ok(QueryState::new(slots, terms, access))
    }

    /// The position at `index`, to be changed in place.
    pub fn config(&mut self, index: usize) -> (slot: &mut QueryTerm)
        requires
            !old(self).frozen,
            index < old(self).slots@.len(),
        ensures
            *slot == old(self).slots@[index as int],
            final(self).slots@ == old(self).slots@.update(index as int, *final(slot)),
            final(self).terms == old(self).terms,
            final(self).frozen == old(self).frozen,
            *final(self).world == *old(self).world,
            *final(final(self).world) == *final(old(self).world),
    {
        &mut self.slots[index]
    }

    /// A handle on the single term at the position `index`, through which
    /// the term can be given its component.
    pub fn term(&mut self, index: usize) -> (builder: TermBuilder<'_>)
        requires
            !old(self).frozen,
            index < old(self).slots@.len(),
            old(self).slots@[index as int] is Single,
        ensures
            QueryTerm::Single(*builder.term) == old(self).slots@[index as int],
            *builder.world == *old(self).world,
            final(self).slots@ == old(self).slots@.update(
                index as int,
                QueryTerm::Single(*final(builder.term)),
            ),
            final(self).terms == old(self).terms,
            final(self).frozen == old(self).frozen,
            *final(self).world == *final(builder.world),
            *final(final(self).world) == *final(old(self).world),
    {
        match &mut self.slots[index] {
            QueryTerm::Single(term) => TermBuilder { term, world: self.world },
            _ => vstd::pervasive::unreached(),
        }
    }

    /// Adds a filter that asks for the presence of the component kind `T`,
    /// which is registered now if it was not.
    pub fn with<T: Component>(&mut self) -> (builder: &mut Self)
        requires
            !old(self).frozen,
            old(self).world.wf(),
            old(self).world@.next_id < PLACEHOLDER_ID,
        ensures
            builder.world.wf(),
            exists|key: u64|
                builder.world@ == old(self).world@.with_component(key) && #[trigger] registry_get(
                    builder.world@.registry,
                    key,
                ).is_some() && builder.terms@ == old(self).terms@.push(
                    Term::with_id(registry_get(builder.world@.registry, key).unwrap()),
                ),
            builder.slots == old(self).slots,
            builder.frozen == old(self).frozen,
            *final(builder.world) == *final(old(self).world),
            *final(self) == *final(builder),
    {
        let key = T::type_key();
        let id = self.world.init_component(key);
        let builder = self.with_id(id);
        proof {
            assert(registry_get(builder.world@.registry, key) == Some(id));
            assert(builder.world@ == old(self).world@.with_component(key) && registry_get(
                builder.world@.registry,
                key,
            ).is_some() && builder.terms@ == old(self).terms@.push(
                Term::with_id(registry_get(builder.world@.registry, key).unwrap()),
            ));
        }
        builder
    }

    /// Adds a filter that asks for the presence of `id`.
    pub fn with_id(&mut self, id: Entity) -> (builder: &mut Self)
        requires
            !old(self).frozen,
        ensures
            builder.terms@ == old(self).terms@.push(Term::with_id(id)),
            builder.slots == old(self).slots,
            builder.frozen == old(self).frozen,
            *builder.world == *old(self).world,
            *final(builder.world) == *final(old(self).world),
            *final(self) == *final(builder),
    {
        self.terms.push(Term::with_id(id));
        self
    }

    /// Adds a filter that asks for the absence of the component kind `T`,
    /// which is registered now if it was not.
    pub fn without<T: Component>(&mut self) -> (builder: &mut Self)
        requires
            !old(self).frozen,
            old(self).world.wf(),
            old(self).world@.next_id < PLACEHOLDER_ID,
        ensures
            builder.world.wf(),
            exists|key: u64|
                builder.world@ == old(self).world@.with_component(key) && #[trigger] registry_get(
                    builder.world@.registry,
                    key,
                ).is_some() && builder.terms@ == old(self).terms@.push(
                    Term::without_id(registry_get(builder.world@.registry, key).unwrap()),
                ),
            builder.slots == old(self).slots,
            builder.frozen == old(self).frozen,
            *final(builder.world) == *final(old(self).world),
            *final(self) == *final(builder),
    {
        let key = T::type_key();
        let id = self.world.init_component(key);
        let builder = self.without_id(id);
        proof {
            assert(registry_get(builder.world@.registry, key) == Some(id));
            assert(builder.world@ == old(self).world@.with_component(key) && registry_get(
                builder.world@.registry,
                key,
            ).is_some() && builder.terms@ == old(self).terms@.push(
                Term::without_id(registry_get(builder.world@.registry, key).unwrap()),
            ));
        }
        builder
    }

    /// Adds a filter that asks for the absence of `id`.
    pub fn without_id(&mut self, id: Entity) -> (builder: &mut Self)
        requires
            !old(self).frozen,
        ensures
            builder.terms@ == old(self).terms@.push(Term::without_id(id)),
            builder.slots == old(self).slots,
            builder.frozen == old(self).frozen,
            *builder.world == *old(self).world,
            *final(builder.world) == *final(old(self).world),
            *final(self) == *final(builder),
    {
        self.terms.push(Term::without_id(id));
        self
    }
}

/// Building is decided by the terms alone: whatever it gives for some terms,
/// it gives for the same terms again. In particular a query with a term that
/// was never given its component fails for that reason every time, at the
/// same term.
pub proof fn lemma_build_is_determined(
    terms: Seq<Term>,
    first: Result<QueryState, QueryError>,
    second: Result<QueryState, QueryError>,
)
    requires
        build_outcome(terms, first),
        build_outcome(terms, second),
    ensures
        first is Ok <==> second is Ok,
        first is Err ==> first == second,
        !all_resolved(terms) ==> first matches Err(QueryError::UnresolvedTerm { .. }),
{
    match (first, second) {
        (
            Err(QueryError::UnresolvedTerm { index: a }),
            Err(QueryError::UnresolvedTerm { index: b }),
        ) => {
            if a < b {
                assert(terms[a as int].id.is_some());
            } else if b < a {
                assert(terms[b as int].id.is_some());
            }
        },
        (
            Err(QueryError::AccessConflict { component: a }),
            Err(QueryError::AccessConflict { component: b }),
        ) => {
            let i = choose|k: int| #[trigger] first_conflict(terms, k) && terms[k].id == Some(a);
            let j = choose|k: int| #[trigger] first_conflict(terms, k) && terms[k].id == Some(b);
            if i < j {
                assert(!conflict_at(terms, i));
            } else if j < i {
                assert(!conflict_at(terms, j));
            }
        },
        (Err(QueryError::UnresolvedTerm { index }), _) => {
            assert(terms[index as int].id.is_none());
        },
        (_, Err(QueryError::UnresolvedTerm { index })) => {
            assert(terms[index as int].id.is_none());
        },
        (Err(QueryError::AccessConflict { component }), Ok(_)) => {
            let j = choose|k: int| #[trigger]
                first_conflict(terms, k) && terms[k].id == Some(component);
            assert(conflict_at(terms, j));
        },
        (Ok(_), Err(QueryError::AccessConflict { component })) => {
            let j = choose|k: int| #[trigger]
                first_conflict(terms, k) && terms[k].id == Some(component);
            assert(conflict_at(terms, j));
        },
        (Ok(_), Ok(_)) => {},
    }
}

} // verus!
