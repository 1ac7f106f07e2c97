use ecs_core::archetype::ArchetypeFlags;
use ecs_core::deferred::DeferredWorld;
use ecs_core::entity::{on_add, on_insert, on_remove, ComponentId, Entity};
use ecs_core::listeners::ObserverRunner;
use ecs_core::observer::ObserverDescriptor;
use ecs_core::query::QueryTerm;
use ecs_core::builder::QueryBuilder;
use ecs_core::term::Term;
use ecs_core::world::{Dispatch, Row, World};
use ecs_core::world_model::Command;

fn runner(n: u64) -> ObserverRunner {
    ObserverRunner { index: n }
}

fn listen(world: &mut World, triggers: &[ComponentId], components: &[ComponentId], sources: &[Entity], run: u64) -> Entity {
    world.observer(ObserverDescriptor::new(triggers.to_vec(), components.to_vec(), sources.to_vec()), runner(run))
}

fn shape(dispatches: &Vec<Dispatch>) -> Vec<(u64, Vec<(u64, u64, u64)>)> {
    dispatches
        .iter()
        .map(|d| (d.id, d.steps.iter().map(|s| (s.runner.index, s.trigger.trigger.id, s.trigger.source.id)).collect()))
        .collect()
}

#[test]
fn a_new_store_keeps_the_first_identifiers() {
    let mut world = World::new();
    assert_eq!(world.entities_len(), 0);
    assert!(world.has_free_id());
    assert_eq!(world.spawn_empty(), Entity::from_raw(3));
    assert_eq!(world.init_component(9), Entity::from_raw(4));
    assert_eq!(world.init_component(9), Entity::from_raw(4));
    assert_eq!(world.init_component(8), Entity::from_raw(5));
    assert_eq!(world.component_id(8), Some(Entity::from_raw(5)));
    assert_eq!(world.component_id(7), None);
    assert_eq!(world.spawn_empty(), Entity::from_raw(6));
    assert_eq!(world.entities_len(), 2);
    assert!(world.contains(Entity::from_raw(3)));
    assert!(!world.contains(Entity::from_raw(4)));
}

#[test]
fn insert_sends_addition_once_and_insertion_each_time() {
    let mut world = World::new();
    let a = world.init_component(1);
    let row = world.spawn_empty();
    listen(&mut world, &[on_add()], &[a], &[], 0);
    listen(&mut world, &[on_insert()], &[a], &[], 1);
    listen(&mut world, &[on_remove()], &[a], &[], 2);

    let first = world.insert(row, a, 5).unwrap();
    assert_eq!(shape(&first), vec![(1, vec![(0, 0, row.id)]), (2, vec![(1, 1, row.id)])]);
    assert_eq!(world.get(row, a), Some(5));
    let second = world.insert(row, a, 6).unwrap();
    assert_eq!(shape(&second), vec![(3, vec![(1, 1, row.id)])]);
    assert_eq!(world.get(row, a), Some(6));
    assert!(world.has_component(row, a));

    let third = world.remove(row, a).unwrap();
    assert_eq!(shape(&third), vec![(4, vec![(2, 2, row.id)])]);
    assert_eq!(world.get(row, a), None);
    assert_eq!(shape(&world.remove(row, a).unwrap()), vec![]);
    assert!(!world.has_component(row, a));
}

#[test]
fn operations_on_a_row_that_is_gone_do_nothing() {
    let mut world = World::new();
    let a = world.init_component(1);
    let gone = Entity::from_raw(77);
    assert!(world.insert(gone, a, 1).is_none());
    assert!(world.remove(gone, a).is_none());
    assert!(world.despawn(gone).is_none());
    assert!(world.get_entity(gone).is_none());
    assert_eq!(world.get(gone, a), None);
    assert!(world.components_of(gone).is_none());
    assert!(world.get_mut(gone, a).is_none());
    assert_eq!(world.entities_len(), 0);
    assert_eq!(shape(&world.apply(Command::Insert { entity: gone, component: a, value: 1 })), vec![]);
    assert_eq!(shape(&world.apply(Command::Remove { entity: gone, component: a })), vec![]);
    assert_eq!(shape(&world.apply(Command::Despawn { entity: gone })), vec![]);
    assert_eq!(world.entities_len(), 0);
}

#[test]
fn spawn_and_despawn_signal_all_components_at_once() {
    let mut world = World::new();
    let a = world.init_component(1);
    let b = world.init_component(2);
    listen(&mut world, &[on_add(), on_insert(), on_remove()], &[a, b], &[], 0);
    let (row, dispatches) = world.spawn(&vec![(a, 1), (b, 2), (a, 3)]);
    assert_eq!(world.components_of(row), Some(vec![a, b]));
    assert_eq!(world.get(row, a), Some(3));
    assert_eq!(
        shape(&dispatches),
        vec![
            (1, vec![(0, 0, row.id), (0, 0, row.id)]),
            (2, vec![(0, 1, row.id), (0, 1, row.id)]),
        ]
    );
    let dispatches = world.despawn(row).unwrap();
    assert_eq!(shape(&dispatches), vec![(3, vec![(0, 2, row.id), (0, 2, row.id)])]);
    assert!(!world.contains(row));

    let bare = world.spawn_empty();
    assert_eq!(shape(&world.despawn(bare).unwrap()), vec![]);
}

#[test]
fn a_listener_runs_once_in_a_dispatch() {
    let mut world = World::new();
    let a = world.init_component(1);
    let listener = listen(&mut world, &[on_add()], &[a], &[], 0);
    assert!(world.claim_run(listener, 1));
    assert!(!world.claim_run(listener, 1));
    assert!(world.claim_run(listener, 2));
    assert!(!world.claim_run(Entity::from_raw(99), 2));
    world.despawn(listener).unwrap();
    assert!(!world.claim_run(listener, 3));
}

#[test]
fn despawning_a_listener_unregisters_it_and_clears_its_flags() {
    let mut world = World::new();
    let a = world.init_component(1);
    let row = world.spawn_empty();
    let listener = listen(&mut world, &[on_add()], &[a], &[row], 0);
    assert_eq!(world.archetype_flags(a), ArchetypeFlags::for_on_add());
    assert_eq!(world.observers().invoke(on_add(), row, &vec![a]).len(), 1);
    world.despawn(listener).unwrap();
    assert_eq!(world.archetype_flags(a), ArchetypeFlags::empty());
    assert_eq!(world.observers().invoke(on_add(), row, &vec![a]).len(), 0);
    assert_eq!(shape(&world.insert(row, a, 0).unwrap()), vec![(1, vec![]), (2, vec![])]);
}

#[test]
fn registering_by_hand() {
    let mut world = World::new();
    let a = world.init_component(1);
    let listener = listen(&mut world, &[on_insert()], &[a], &[], 4);
    world.unregister_observer(listener, ObserverDescriptor::new(vec![on_insert()], vec![a], vec![]));
    assert_eq!(world.observers().invoke(on_insert(), Entity::from_raw(50), &vec![a]), vec![]);
    assert_eq!(world.archetype_flags(a), ArchetypeFlags::empty());
    world.register_observer(listener);
    let steps = world.observers().invoke(on_insert(), Entity::from_raw(50), &vec![a]);
    assert_eq!(steps.len(), 1);
    assert_eq!(steps[0].runner, runner(4));
    assert_eq!(steps[0].trigger.observer, listener);
    assert_eq!(world.archetype_flags(a), ArchetypeFlags::for_on_insert());
}

#[test]
fn commands_wait_in_the_queue_until_flushed() {
    let mut world = World::new();
    let a = world.init_component(1);
    let row = world.spawn_empty();
    {
        let mut deferred = DeferredWorld::new(&mut world);
        let mut commands = deferred.commands();
        commands.insert(row, a, 9);
        commands.remove(row, a);
        commands.push(Command::Trigger { trigger: Entity::from_raw(60), target: row });
        commands.despawn(row);
        assert!(!deferred.as_world().has_component(row, a));
        deferred.ecs_event(Entity::from_raw(61)).entity(row).emit();
        deferred.ecs_event(Entity::from_raw(62)).emit();
    }
    assert_eq!(world.commands_len(), 6);
    assert!(world.contains(row));
    assert!(!world.has_component(row, a));
    assert_eq!(shape(&world.flush_next().unwrap()), vec![(1, vec![]), (2, vec![])]);
    assert_eq!(world.get(row, a), Some(9));
    assert_eq!(shape(&world.flush_next().unwrap()), vec![(3, vec![])]);
    assert_eq!(world.get(row, a), None);
    assert_eq!(shape(&world.flush_next().unwrap()), vec![(4, vec![])]);
    assert_eq!(shape(&world.flush_next().unwrap()), vec![]);
    assert!(!world.contains(row));
    assert_eq!(shape(&world.flush_next().unwrap()), vec![(5, vec![])]);
    assert_eq!(shape(&world.flush_next().unwrap()), vec![(6, vec![])]);
    assert!(world.flush_next().is_none());
    assert_eq!(world.commands_len(), 0);
}

#[test]
fn signals_go_to_each_target_or_to_none() {
    let mut world = World::new();
    let signal = world.init_component(100);
    let first = world.spawn_empty();
    let second = world.spawn_empty();
    listen(&mut world, &[signal], &[], &[], 0);
    listen(&mut world, &[signal], &[], &[second], 1);
    world.trigger(signal).entity(first).entity(second).emit();
    world.trigger(signal).emit();
    assert_eq!(world.commands_len(), 3);
    assert_eq!(shape(&world.flush_next().unwrap()), vec![(1, vec![(0, signal.id, first.id)])]);
    assert_eq!(
        shape(&world.flush_next().unwrap()),
        vec![(2, vec![(0, signal.id, second.id), (1, signal.id, second.id)])]
    );
    assert_eq!(shape(&world.flush_next().unwrap()), vec![(3, vec![(0, signal.id, u64::MAX)])]);
    let dispatch = world.trigger_observers(signal, second, &vec![]);
    assert_eq!(dispatch.id, 4);
    assert_eq!(dispatch.steps.len(), 2);
}

#[test]
fn values_change_in_place_through_the_handle() {
    let mut world = World::new();
    let a = world.init_component(1);
    let r = world.init_component(2);
    let n = world.init_component(3);
    let row = world.spawn(&vec![(a, 10)]).0;
    world.insert_resource(r, 1);
    world.insert_non_send_resource(n, 2);
    {
        let mut deferred = DeferredWorld::new(&mut world);
        *deferred.get_mut(row, a).unwrap() += 1;
        assert!(deferred.get_mut(row, r).is_none());
        assert!(deferred.get_mut(Entity::from_raw(99), a).is_none());
        *deferred.resource_mut(r) += 10;
        *deferred.get_resource_mut(r).unwrap() += 10;
        assert!(deferred.get_resource_mut(n).is_none());
        *deferred.non_send_resource_mut(n) += 20;
        *deferred.get_non_send_resource_mut(n).unwrap() += 20;
        assert!(deferred.get_non_send_resource_mut(r).is_none());
        let mut again = deferred.reborrow();
        let mut handle = again.entity_mut(row);
        assert_eq!(handle.id(), row);
        assert!(handle.contains(a));
        assert!(!handle.contains(r));
        assert_eq!(handle.get(a), Some(11));
        *handle.get_mut(a).unwrap() *= 2;
        assert!(handle.get_mut(r).is_none());
        handle.release();
        again.release();
        assert!(deferred.get_entity_mut(Entity::from_raw(99)).is_none());
        assert_eq!(deferred.get_entity_mut(row).unwrap().get(a), Some(22));
    }
    assert_eq!(world.get(row, a), Some(22));
    assert_eq!(world.resource(r), Some(21));
    assert_eq!(world.non_send_resource(n), Some(42));
    assert_eq!(world.resource(n), None);
    assert_eq!(world.non_send_resource(r), None);
    assert_eq!(world.components_of(row), Some(vec![a]));
    assert_eq!(world.entities_len(), 1);
}

#[test]
fn events_are_numbered_by_kind() {
    let mut world = World::new();
    let kind = world.init_component(1);
    let other = world.init_component(2);
    assert_eq!(world.send_event(kind, 5), None);
    assert_eq!(world.events_len(kind), None);
    world.add_event(kind);
    assert_eq!(world.events_len(kind), Some(0));
    let mut deferred = DeferredWorld::new(&mut world);
    assert_eq!(deferred.send_event(kind, 5), Some(0));
    assert_eq!(deferred.send_event_default(kind), Some(1));
    assert_eq!(deferred.send_event_batch(kind, &vec![7, 8, 9]), Some((2, 3)));
    assert_eq!(deferred.send_event_batch(kind, &vec![]), Some((5, 0)));
    assert_eq!(deferred.send_event(other, 1), None);
    assert_eq!(deferred.send_event_default(other), None);
    assert_eq!(deferred.send_event_batch(other, &vec![1]), None);
    assert_eq!(deferred.send_event(kind, 6), Some(5));
    world.add_event(kind);
    assert_eq!(world.events_len(kind), Some(6));
    assert_eq!(world.events_len(other), None);
}

#[test]
fn the_handle_dispatches_and_queries() {
    let mut world = World::new();
    let a = world.init_component(1);
    let row = world.spawn(&vec![(a, 1)]).0;
    let listener = listen(&mut world, &[on_add()], &[a], &[], 3);
    let state = QueryBuilder::new(&mut world, vec![QueryTerm::Single(Term::read_id(a))]).build().unwrap();
    let mut deferred = DeferredWorld::new(&mut world);
    assert_eq!(deferred.query(&state), vec![row]);
    let dispatch = deferred.trigger_observers(on_add(), row, &vec![a]);
    // The spawn above has counted two dispatches: addition and insertion.
    assert_eq!(dispatch.id, 3);
    assert_eq!(dispatch.steps.len(), 1);
    assert_eq!(dispatch.steps[0].runner, runner(3));
    assert!(deferred.claim_run(listener, dispatch.id));
    assert!(!deferred.claim_run(listener, dispatch.id));
}

#[test]
fn rows_by_themselves() {
    let mut row = Row::new();
    let (a, b) = (Entity::from_raw(1), Entity::from_raw(2));
    assert_eq!(row.len(), 0);
    assert_eq!(row.insert(a, 1), None);
    assert_eq!(row.insert(b, 2), None);
    assert_eq!(row.insert(a, 3), Some(1));
    assert_eq!(row.component_ids(), vec![a, b]);
    *row.get_mut(b).unwrap() = 4;
    assert_eq!(row.get(b), Some(4));
    assert!(row.get_mut(Entity::from_raw(3)).is_none());
    assert_eq!(row.remove(a), Some(3));
    assert_eq!(row.remove(a), None);
    assert!(!row.contains(a));
    assert_eq!(row.len(), 1);
}
