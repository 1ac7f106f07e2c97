use ecs_core::access::Access;
use ecs_core::builder::{QueryBuilder, TermBuilder};
use ecs_core::component::Component;
use ecs_core::entity::{ComponentId, Entity};
use ecs_core::group::{ComponentTermState, OrTerm, OrTermState};
use ecs_core::query::{QueryError, QueryTerm};
use ecs_core::term::{contains_id, Term, TermAccess, TermOperator};
use ecs_core::world::World;

struct A;

impl Component for A {
    fn type_key() -> u64 {
        1
    }
}

struct B;

impl Component for B {
    fn type_key() -> u64 {
        2
    }
}

struct C;

impl Component for C {
    fn type_key() -> u64 {
        3
    }
}

fn id<T: Component>(world: &mut World) -> ComponentId {
    world.init_component(T::type_key())
}

/// The positions of a query that fetches the row itself and then `n` single
/// components still to be named.
fn row_and_pointers(n: usize) -> Vec<QueryTerm> {
    let mut slots = vec![QueryTerm::Group(Vec::new())];
    for _ in 0..n {
        slots.push(QueryTerm::Single(Term::read()));
    }
    slots
}

fn single(rows: Vec<Entity>) -> Entity {
    assert_eq!(rows.len(), 1);
    rows[0]
}

fn fetched(world: &World, entity: Entity, slot: &QueryTerm) -> usize {
    match slot {
        QueryTerm::Single(term) => world.get(entity, term.id()).unwrap(),
        _ => panic!("not a single term"),
    }
}

#[test]
fn test_builder_static() {
    let mut world = World::new();
    let a = id::<A>(&mut world);
    let b = id::<B>(&mut world);
    let entity = world.spawn(&vec![(a, 0), (b, 1)]).0;

    let mut builder = QueryBuilder::new(&mut world, row_and_pointers(2));
    builder.term(1).set::<A>();
    builder.term(2).set::<B>();
    let query = builder.build().unwrap();

    let e = single(world.query(&query));

    assert_eq!(e, entity);

    let a = fetched(&world, e, &query.positions()[1]);
    let b = fetched(&world, e, &query.positions()[2]);

    assert_eq!(a, 0);
    assert_eq!(b, 1);
}

#[test]
fn test_builder_ptr() {
    let mut world = World::new();
    let component_id_a = id::<A>(&mut world);
    let component_id_b = id::<B>(&mut world);
    let entity = world.spawn(&vec![(component_id_a, 0), (component_id_b, 1)]).0;

    let mut builder = QueryBuilder::new(&mut world, row_and_pointers(2));
    builder.term(1).set_id(component_id_a);
    builder.term(2).set_id(component_id_b);
    let query = builder.build().unwrap();

    let e = single(world.query(&query));

    assert_eq!(e, entity);

    let a = fetched(&world, e, &query.positions()[1]);
    let b = fetched(&world, e, &query.positions()[2]);

    assert_eq!(a, 0);
    assert_eq!(b, 1);
}

#[test]
fn test_builder_vec() {
    let mut world = World::new();
    let component_a = id::<A>(&mut world);
    let component_b = id::<B>(&mut world);
    let entity = world.spawn(&vec![(component_a, 0), (component_b, 1)]).0;

    let mut builder = QueryBuilder::new(
        &mut world,
        vec![QueryTerm::Group(Vec::new()), QueryTerm::Group(Vec::new())],
    );
    match builder.config(1) {
        QueryTerm::Group(t) => {
            t.push(Term::read_id(component_a));
            t.push(Term::read_id(component_b));
        }
        _ => unreachable!(),
    }
    let query = builder.build().unwrap();

    let e = single(world.query(&query));

    assert_eq!(e, entity);

    let ptrs = &query.positions()[1];
    assert!(ptrs.is_group());
    assert_eq!(ptrs.group_len(), 2);
    let a = world.get(e, ptrs.group_term(0).id()).unwrap();
    let b = world.get(e, ptrs.group_term(1).id()).unwrap();

    assert_eq!(a, 0);
    assert_eq!(b, 1);
}

#[test]
fn test_builder_with_without() {
    let mut world = World::new();
    let a = id::<A>(&mut world);
    let b = id::<B>(&mut world);
    let c = id::<C>(&mut world);
    let entity_a = world.spawn(&vec![(a, 0), (b, 0)]).0;
    let entity_b = world.spawn(&vec![(a, 0), (c, 0)]).0;

    let query_a = QueryBuilder::new(&mut world, row_and_pointers(0))
        .with::<A>()
        .without::<C>()
        .build()
        .unwrap();
    assert_eq!(entity_a, single(world.query(&query_a)));

    let query_b = QueryBuilder::new(&mut world, row_and_pointers(0))
        .with::<A>()
        .without::<B>()
        .build()
        .unwrap();
    assert_eq!(entity_b, single(world.query(&query_b)));
}

#[test]
fn test_entity_components() {
    let mut world = World::new();
    let component = world.spawn_empty();
    let entity = world.spawn_empty();
    world.insert(entity, component, 0).unwrap();
    let query = QueryBuilder::new(&mut world, row_and_pointers(0))
        .with_id(component)
        .build()
        .unwrap();
    assert_eq!(entity, single(world.query(&query)));
}

#[test]
fn term_constructors_set_access_and_operator() {
    let e = Entity::from_raw(7);
    let t = Term::none_id(e);
    assert_eq!((t.id, t.access, t.oper), (Some(e), TermAccess::NoAccess, TermOperator::Any));
    let t = Term::read_id(e);
    assert_eq!((t.id, t.access, t.oper), (Some(e), TermAccess::Read, TermOperator::With));
    let t = Term::read();
    assert_eq!((t.id, t.access, t.oper), (None, TermAccess::Read, TermOperator::With));
    let t = Term::write_id(e);
    assert_eq!((t.id, t.access, t.oper), (Some(e), TermAccess::Write, TermOperator::With));
    let t = Term::write();
    assert_eq!((t.id, t.access, t.oper), (None, TermAccess::Write, TermOperator::With));
    let t = Term::with_id(e);
    assert_eq!((t.id, t.access, t.oper), (Some(e), TermAccess::NoAccess, TermOperator::With));
    let t = Term::without_id(e);
    assert_eq!((t.id, t.access, t.oper), (Some(e), TermAccess::NoAccess, TermOperator::Without));
    let mut t = Term::write();
    assert!(!t.is_resolved());
    t.set_id(e);
    assert!(t.is_resolved());
    assert_eq!(t.id(), e);
    assert_eq!(t.access, TermAccess::Write);
}

#[test]
fn with_and_without_on_rows_with_one_and_with_both() {
    let a = Entity::from_raw(10);
    let b = Entity::from_raw(11);
    let terms = vec![Term::with_id(a), Term::without_id(b)];
    assert!(Term::matches_component_set(&terms, &vec![a]));
    assert!(!Term::matches_component_set(&terms, &vec![a, b]));
    assert!(!Term::matches_component_set(&terms, &vec![b]));
    assert!(!Term::matches_component_set(&terms, &vec![]));
    assert!(Term::matches_component_set(&vec![], &vec![]));
    assert!(Term::matches_component_set(&vec![Term::none_id(a)], &vec![]));
    assert!(contains_id(&vec![a, b], b));
    assert!(!contains_id(&vec![a], b));
}

#[test]
fn or_group_matches_if_one_alternative_does() {
    let a = Entity::from_raw(10);
    let b = Entity::from_raw(11);
    let c = Entity::from_raw(12);
    let group = OrTerm::or(vec![Term::with_id(a), Term::with_id(b)]);
    assert!(group.matches_component_set(&vec![a]));
    assert!(group.matches_component_set(&vec![c, b]));
    assert!(group.matches_component_set(&vec![a, b]));
    assert!(!group.matches_component_set(&vec![c]));
    assert!(!group.matches_component_set(&vec![]));
    assert!(!OrTerm::or(vec![]).matches_component_set(&vec![a]));
    assert!(!group.is_fetching());
    assert!(OrTerm::any_of(vec![]).is_fetching());
    assert_eq!(group.alternatives().len(), 2);
}

#[test]
fn or_group_declares_the_access_of_every_alternative() {
    let a = Entity::from_raw(10);
    let b = Entity::from_raw(11);
    let c = Entity::from_raw(12);
    let group = OrTerm::any_of(vec![Term::read_id(a), Term::write_id(b), Term::with_id(c)]);
    let mut access = Access::new();
    access.add_read(c);
    group.update_component_access(&mut access);
    assert!(access.has_read(a));
    assert!(access.has_read(c));
    assert!(!access.has_read(b));
    assert!(access.has_write(b));
    assert!(!access.has_write(a));
    assert!(!access.has_write(c));
    assert!(access.conflicts_with(&Term::write_id(a)));
    assert!(access.conflicts_with(&Term::read_id(b)));
    assert!(access.conflicts_with(&Term::write_id(b)));
    assert!(!access.conflicts_with(&Term::read_id(a)));
    assert!(!access.conflicts_with(&Term::with_id(b)));
}

#[test]
fn or_group_fetches_whichever_alternative_is_present() {
    let mut world = World::new();
    let a = world.init_component(1);
    let b = world.init_component(2);
    let entity = world.spawn(&vec![(b, 42)]).0;
    let group = OrTerm::any_of(vec![Term::read_id(a), Term::read_id(b)]);
    let mut states = group.init_state();
    assert_eq!(states.len(), 2);
    assert!(states.iter().all(|s| !s.matches && s.dense()));
    assert!(!group.filter_fetch(&states));
    group.set_table(&mut states, world.get_entity(entity).unwrap());
    assert_eq!(states[0].matches, false);
    assert_eq!(states[1].matches, true);
    assert_eq!(states[1].component.value, Some(42));
    assert!(group.filter_fetch(&states));
    assert_eq!(group.fetch(&states), vec![None, Some(42)]);
    let filter = OrTerm::or(vec![Term::read_id(a), Term::read_id(b)]);
    assert_eq!(filter.fetch(&states), vec![]);
}

#[test]
fn or_state_is_dense_unless_it_matches_a_sparse_component() {
    let sparse = ComponentTermState { dense: false, value: None };
    let dense = ComponentTermState { dense: true, value: None };
    assert!(OrTermState { component: sparse, matches: false }.dense());
    assert!(!OrTermState { component: sparse, matches: true }.dense());
    assert!(OrTermState { component: dense, matches: true }.dense());
    assert!(OrTermState { component: dense, matches: false }.dense());
    assert!(dense.dense());
    assert!(!sparse.dense());
}

#[test]
fn build_fails_on_the_first_unresolved_term_every_time() {
    let mut world = World::new();
    let a = world.init_component(1);
    let mut builder = QueryBuilder::new(
        &mut world,
        vec![QueryTerm::Single(Term::read_id(a)), QueryTerm::Single(Term::read()), QueryTerm::Single(Term::write())],
    );
    let first = builder.build();
    let second = builder.build();
    assert!(matches!(first, Err(QueryError::UnresolvedTerm { index: 1 })));
    assert!(matches!(second, Err(QueryError::UnresolvedTerm { index: 1 })));
    assert_eq!(first.err(), second.err());
    builder.term(1).set_key(2);
    assert!(matches!(builder.build(), Err(QueryError::UnresolvedTerm { index: 2 })));
    builder.term(2).set_key(3);
    assert!(builder.build().is_ok());
    assert!(builder.frozen);
}

#[test]
fn build_reports_conflicting_access() {
    let mut world = World::new();
    let a = world.init_component(1);
    let b = world.init_component(2);
    let slots = |first: Term, second: Term| vec![QueryTerm::Single(first), QueryTerm::Single(second)];

    let mut builder = QueryBuilder::new(&mut world, slots(Term::write_id(a), Term::write_id(a)));
    assert_eq!(builder.build().err(), Some(QueryError::AccessConflict { component: a }));
    assert_eq!(builder.build().err(), Some(QueryError::AccessConflict { component: a }));
    assert!(!builder.frozen);

    let mut builder = QueryBuilder::new(&mut world, slots(Term::read_id(b), Term::write_id(b)));
    assert_eq!(builder.build().err(), Some(QueryError::AccessConflict { component: b }));

    let mut builder = QueryBuilder::new(&mut world, slots(Term::write_id(b), Term::read_id(b)));
    assert_eq!(builder.build().err(), Some(QueryError::AccessConflict { component: b }));

    let mut builder = QueryBuilder::new(&mut world, slots(Term::read_id(a), Term::read_id(a)));
    assert!(builder.build().is_ok());

    let mut builder = QueryBuilder::new(&mut world, slots(Term::write_id(a), Term::write_id(b)));
    let state = builder.build().unwrap();
    assert!(state.component_access().has_write(a));
    assert!(state.component_access().has_write(b));
    assert!(!state.component_access().has_read(a));

    let group = QueryTerm::Or(OrTerm::any_of(vec![Term::read_id(a), Term::write_id(b)]));
    let mut builder = QueryBuilder::new(&mut world, vec![group, QueryTerm::Single(Term::read_id(b))]);
    assert_eq!(builder.build().err(), Some(QueryError::AccessConflict { component: b }));
}

#[test]
fn query_walks_rows_in_order_and_honours_groups() {
    let mut world = World::new();
    let a = world.init_component(1);
    let b = world.init_component(2);
    let c = world.init_component(3);
    let first = world.spawn(&vec![(a, 1)]).0;
    let second = world.spawn(&vec![(b, 2), (c, 3)]).0;
    let third = world.spawn(&vec![(a, 4), (b, 5)]).0;
    let _bare = world.spawn_empty();

    let either = QueryTerm::Or(OrTerm::or(vec![Term::with_id(a), Term::with_id(c)]));
    let state = QueryBuilder::new(&mut world, vec![either]).build().unwrap();
    assert_eq!(world.query(&state), vec![first, second, third]);

    let both = QueryTerm::Group(vec![Term::read_id(a), Term::read_id(b)]);
    let state = QueryBuilder::new(&mut world, vec![both]).build().unwrap();
    assert_eq!(world.query(&state), vec![third]);
    assert!(state.matches(&vec![b, a]));
    assert!(!state.matches(&vec![a]));

    let state = QueryBuilder::new(&mut world, vec![]).without_id(a).build().unwrap();
    assert_eq!(world.query(&state).len(), 2);
    assert_eq!(state.terms().len(), 1);
}

#[test]
fn term_builder_registers_the_kind_once() {
    let mut world = World::new();
    let mut term = Term::read();
    TermBuilder::new(&mut term, &mut world).set::<A>();
    let a = world.component_id(A::type_key()).unwrap();
    assert_eq!(term.id, Some(a));
    let mut other = Term::write();
    TermBuilder::new(&mut other, &mut world).set::<A>();
    assert_eq!(other.id, Some(a));
    assert_eq!(other.access, TermAccess::Write);
    assert_eq!(world.component_id(B::type_key()), None);
    assert_eq!(world.entities_len(), 0);
}

#[test]
fn alternatives_of_a_group_can_be_named_later() {
    let mut world = World::new();
    let a = world.init_component(1);
    let b = world.init_component(2);
    let first = world.spawn(&vec![(a, 1)]).0;
    let _second = world.spawn(&vec![(b, 2)]).0;
    let group = QueryTerm::Or(OrTerm::any_of(vec![Term::read(), Term::read_id(a)]));
    let mut builder = QueryBuilder::new(&mut world, vec![group]);
    assert_eq!(builder.build().err(), Some(QueryError::UnresolvedTerm { index: 0 }));
    match builder.config(0) {
        QueryTerm::Or(group) => group.alternatives_mut()[0].set_id(a),
        _ => unreachable!(),
    }
    let state = builder.build().unwrap();
    assert_eq!(world.query(&state), vec![first]);
}
