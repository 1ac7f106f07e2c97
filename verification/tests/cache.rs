use ecs_core::archetype::{ArchetypeFlags, Archetypes};
use ecs_core::cache_model::{Invocation, ObserverTrigger};
use ecs_core::entity::{on_add, on_insert, on_remove, ComponentId, Entity};
use ecs_core::listeners::{ObserverMap, ObserverRunner};
use ecs_core::observer::{CachedComponentObservers, CachedObservers, ObserverDescriptor, Observers};
use ecs_core::table::Table;

fn e(n: u64) -> Entity {
    Entity::from_raw(n)
}

fn runner(n: u64) -> ObserverRunner {
    ObserverRunner { index: n }
}

fn descriptor(triggers: &[ComponentId], components: &[ComponentId], sources: &[Entity]) -> ObserverDescriptor {
    ObserverDescriptor::new(triggers.to_vec(), components.to_vec(), sources.to_vec())
}

fn observers_of(steps: &Vec<Invocation>) -> Vec<u64> {
    steps.iter().map(|step| step.trigger.observer.id).collect()
}

fn step(observer: u64, run: u64, trigger: ComponentId, source: Entity) -> Invocation {
    Invocation {
        runner: runner(run),
        trigger: ObserverTrigger { observer: e(observer), trigger, source },
    }
}

#[test]
fn unscoped_listeners_run_in_registration_order() {
    let signal = e(50);
    for order in [[10u64, 11, 12, 13], [13, 12, 11, 10], [11, 13, 10, 12], [12, 10, 13, 11]] {
        let mut observers = Observers::new();
        let mut archetypes = Archetypes::new();
        for observer in order {
            observers.register(&mut archetypes, e(observer), runner(observer + 100), &descriptor(&[signal], &[], &[]));
        }
        let steps = observers.invoke(signal, Entity::placeholder(), &vec![]);
        assert_eq!(observers_of(&steps), order.to_vec());
        let expected: Vec<Invocation> =
            order.iter().map(|o| step(*o, *o + 100, signal, Entity::placeholder())).collect();
        assert_eq!(steps, expected);
        let steps = observers.invoke(signal, e(7), &vec![e(1), e(2)]);
        assert_eq!(observers_of(&steps), order.to_vec());
    }
}

#[test]
fn registering_again_keeps_the_place_and_takes_the_new_runner() {
    let signal = e(50);
    let mut observers = Observers::new();
    let mut archetypes = Archetypes::new();
    let unscoped = descriptor(&[signal], &[], &[]);
    observers.register(&mut archetypes, e(10), runner(1), &unscoped);
    observers.register(&mut archetypes, e(11), runner(2), &unscoped);
    observers.register(&mut archetypes, e(10), runner(3), &unscoped);
    let steps = observers.invoke(signal, Entity::placeholder(), &vec![]);
    assert_eq!(
        steps,
        vec![
            step(10, 3, signal, Entity::placeholder()),
            step(11, 2, signal, Entity::placeholder()),
        ]
    );
}

#[test]
fn dispatch_goes_bucket_by_bucket_in_the_fixed_order() {
    let mut observers = Observers::new();
    let mut archetypes = Archetypes::new();
    let row = e(7);
    let (a, b) = (e(20), e(21));
    // Registered in an order unlike the order in which they are to run.
    observers.register(&mut archetypes, e(15), runner(5), &descriptor(&[on_add()], &[b], &[row]));
    observers.register(&mut archetypes, e(14), runner(4), &descriptor(&[on_add()], &[b], &[]));
    observers.register(&mut archetypes, e(13), runner(3), &descriptor(&[on_add()], &[a], &[row]));
    observers.register(&mut archetypes, e(12), runner(2), &descriptor(&[on_add()], &[a], &[]));
    observers.register(&mut archetypes, e(11), runner(1), &descriptor(&[on_add()], &[], &[row]));
    observers.register(&mut archetypes, e(10), runner(0), &descriptor(&[on_add()], &[], &[]));

    let steps = observers.invoke(on_add(), row, &vec![a, b]);
    assert_eq!(observers_of(&steps), vec![10, 11, 12, 13, 14, 15]);
    // The touched components are walked in the order given.
    let steps = observers.invoke(on_add(), row, &vec![b, a]);
    assert_eq!(observers_of(&steps), vec![10, 11, 14, 15, 12, 13]);
    // No target row: the listeners scoped to rows stay out.
    let steps = observers.invoke(on_add(), Entity::placeholder(), &vec![a, b]);
    assert_eq!(observers_of(&steps), vec![10, 12, 14]);
    // Another row.
    let steps = observers.invoke(on_add(), e(8), &vec![a]);
    assert_eq!(observers_of(&steps), vec![10, 12]);
    // No component touched.
    let steps = observers.invoke(on_add(), row, &vec![]);
    assert_eq!(observers_of(&steps), vec![10, 11]);
    // A component touched twice is walked twice.
    let steps = observers.invoke(on_add(), e(8), &vec![a, a]);
    assert_eq!(observers_of(&steps), vec![10, 12, 12]);
    // Another kind of signal reaches nobody.
    assert_eq!(observers.invoke(on_insert(), row, &vec![a, b]), vec![]);
    assert_eq!(observers.invoke(e(99), row, &vec![a, b]), vec![]);
}

#[test]
fn row_scoped_listener_runs_for_its_rows_only() {
    let signal = e(50);
    let mut observers = Observers::new();
    let mut archetypes = Archetypes::new();
    observers.register(&mut archetypes, e(10), runner(0), &descriptor(&[signal], &[], &[e(7), e(8)]));
    assert_eq!(observers_of(&observers.invoke(signal, e(7), &vec![])), vec![10]);
    assert_eq!(observers_of(&observers.invoke(signal, e(8), &vec![e(1)])), vec![10]);
    assert_eq!(observers.invoke(signal, e(9), &vec![]), vec![]);
    assert_eq!(observers.invoke(signal, Entity::placeholder(), &vec![]), vec![]);
    assert_eq!(observers.invoke(on_add(), e(7), &vec![]), vec![]);
}

#[test]
fn listener_scoped_to_the_placeholder_never_runs() {
    let signal = e(50);
    let mut observers = Observers::new();
    let mut archetypes = Archetypes::new();
    observers.register(&mut archetypes, e(10), runner(0), &descriptor(&[signal], &[], &[Entity::placeholder()]));
    assert_eq!(observers.invoke(signal, Entity::placeholder(), &vec![]), vec![]);
}

#[test]
fn component_scoped_listener_runs_only_if_its_component_is_touched() {
    let mut observers = Observers::new();
    let mut archetypes = Archetypes::new();
    let (a, b, c) = (e(20), e(21), e(22));
    observers.register(&mut archetypes, e(10), runner(0), &descriptor(&[on_insert()], &[a, b], &[]));
    assert_eq!(observers_of(&observers.invoke(on_insert(), e(7), &vec![a])), vec![10]);
    assert_eq!(observers_of(&observers.invoke(on_insert(), e(7), &vec![c, b])), vec![10]);
    assert_eq!(observers_of(&observers.invoke(on_insert(), e(7), &vec![a, b])), vec![10, 10]);
    assert_eq!(observers.invoke(on_insert(), e(7), &vec![c]), vec![]);
    assert_eq!(observers.invoke(on_insert(), e(7), &vec![]), vec![]);
}

#[test]
fn unregistered_listener_is_gone_for_good() {
    let mut observers = Observers::new();
    let mut archetypes = Archetypes::new();
    let (a, row) = (e(20), e(7));
    let shapes = [
        descriptor(&[on_add(), e(50)], &[], &[]),
        descriptor(&[on_add(), e(50)], &[], &[row, e(8)]),
        descriptor(&[on_add(), e(50)], &[a, e(21)], &[]),
        descriptor(&[on_add(), e(50)], &[a, e(21)], &[row, e(8)]),
    ];
    for shape in shapes.iter() {
        observers.register(&mut archetypes, e(11), runner(1), &descriptor(&[on_add()], &[], &[]));
        observers.register(&mut archetypes, e(10), runner(0), shape);
        assert!(observers_of(&observers.invoke(on_add(), row, &vec![a])).contains(&10));
        assert!(observers_of(&observers.invoke(e(50), row, &vec![a])).contains(&10));
        observers.unregister(&mut archetypes, e(10), shape);
        assert_eq!(observers_of(&observers.invoke(on_add(), row, &vec![a, e(21)])), vec![11]);
        assert_eq!(observers.invoke(e(50), row, &vec![a, e(21)]), vec![]);
        // Others come and go; the listener stays away.
        observers.register(&mut archetypes, e(12), runner(2), shape);
        assert!(!observers_of(&observers.invoke(on_add(), row, &vec![a])).contains(&10));
        observers.unregister(&mut archetypes, e(12), shape);
        observers.unregister(&mut archetypes, e(11), &descriptor(&[on_add()], &[], &[]));
        assert_eq!(observers.invoke(on_add(), row, &vec![a]), vec![]);
    }
}

#[test]
fn flags_follow_the_component_entries() {
    let mut observers = Observers::new();
    let mut archetypes = Archetypes::new();
    let (a, b, row) = (e(20), e(21), e(7));
    assert_eq!(archetypes.flags_of(a), ArchetypeFlags::empty());

    let scoped = descriptor(&[on_add(), on_remove(), e(50)], &[a], &[row]);
    observers.register(&mut archetypes, e(10), runner(0), &scoped);
    let expected = ArchetypeFlags { on_add_observer: true, on_insert_observer: false, on_remove_observer: true };
    assert_eq!(archetypes.flags_of(a), expected);
    assert_eq!(archetypes.flags_of(b), ArchetypeFlags::empty());
    assert!(observers.try_get_observers(on_add()).unwrap().has_component(a));
    assert!(!observers.try_get_observers(on_insert()).unwrap().has_component(a));

    let mut flags = ArchetypeFlags::for_on_insert();
    observers.update_archetype_flags(a, &mut flags);
    assert_eq!(flags, ArchetypeFlags { on_add_observer: true, on_insert_observer: true, on_remove_observer: true });
    let mut flags = ArchetypeFlags::empty();
    observers.update_archetype_flags(b, &mut flags);
    assert_eq!(flags, ArchetypeFlags::empty());

    // A second listener on the same component keeps the entry alive.
    observers.register(&mut archetypes, e(11), runner(1), &descriptor(&[on_add()], &[a], &[]));
    observers.unregister(&mut archetypes, e(10), &scoped);
    assert_eq!(archetypes.flags_of(a), ArchetypeFlags::for_on_add());
    assert!(observers.try_get_observers(on_add()).unwrap().has_component(a));
    assert!(!observers.try_get_observers(on_remove()).unwrap().has_component(a));
    assert!(observers.try_get_observers(on_add()).unwrap().component(a).unwrap().targeted(row).is_none());

    observers.unregister(&mut archetypes, e(11), &descriptor(&[on_add()], &[a], &[]));
    assert_eq!(archetypes.flags_of(a), ArchetypeFlags::empty());
    assert!(!observers.try_get_observers(on_add()).unwrap().has_component(a));
    assert!(observers.try_get_observers(on_add()).unwrap().component(a).is_none());
}

#[test]
fn row_entries_go_when_their_last_listener_goes() {
    let mut observers = Observers::new();
    let mut archetypes = Archetypes::new();
    let row = e(7);
    let first = descriptor(&[on_add()], &[], &[row]);
    observers.register(&mut archetypes, e(10), runner(0), &first);
    observers.register(&mut archetypes, e(11), runner(1), &first);
    assert_eq!(observers.try_get_observers(on_add()).unwrap().targeted(row).unwrap().len(), 2);
    observers.unregister(&mut archetypes, e(10), &first);
    assert_eq!(observers.try_get_observers(on_add()).unwrap().targeted(row).unwrap().len(), 1);
    observers.unregister(&mut archetypes, e(11), &first);
    assert!(observers.try_get_observers(on_add()).unwrap().targeted(row).is_none());
    // Unregistering what is not there changes nothing.
    observers.unregister(&mut archetypes, e(11), &first);
    observers.unregister(&mut archetypes, e(12), &descriptor(&[on_add()], &[e(20)], &[row]));
    assert!(observers.try_get_observers(on_add()).unwrap().listeners().is_empty());
}

#[test]
fn places_of_signal_kinds() {
    let mut observers = Observers::new();
    assert!(observers.try_get_observers(on_add()).is_some());
    assert!(observers.try_get_observers(on_insert()).is_some());
    assert!(observers.try_get_observers(on_remove()).is_some());
    assert!(observers.try_get_observers(e(50)).is_none());
    assert!(observers.get_observers(e(50)).listeners().is_empty());
    assert!(observers.try_get_observers(e(50)).is_some());
    assert!(observers.try_get_observers(e(51)).is_none());

    assert_eq!(Observers::is_archetype_cached(on_add()), Some(ArchetypeFlags::for_on_add()));
    assert_eq!(Observers::is_archetype_cached(on_insert()), Some(ArchetypeFlags::for_on_insert()));
    assert_eq!(Observers::is_archetype_cached(on_remove()), Some(ArchetypeFlags::for_on_remove()));
    assert_eq!(Observers::is_archetype_cached(e(3)), None);
}

#[test]
fn per_signal_and_per_component_caches() {
    let mut archetypes = Archetypes::new();
    let mut cache = CachedObservers::new();
    cache.register(Some(ArchetypeFlags::for_on_add()), &mut archetypes, e(10), runner(0), &vec![e(20)], &vec![e(7)]);
    assert!(cache.has_component(e(20)));
    assert!(!cache.has_component(e(21)));
    assert_eq!(archetypes.flags_of(e(20)), ArchetypeFlags::for_on_add());
    cache.unregister(Some(ArchetypeFlags::for_on_add()), &mut archetypes, e(10), &vec![e(20)], &vec![e(7)]);
    assert!(!cache.has_component(e(20)));
    assert_eq!(archetypes.flags_of(e(20)), ArchetypeFlags::empty());

    let mut component = CachedComponentObservers::new();
    assert!(component.is_empty());
    component.insert(e(10), runner(0), &vec![]);
    component.insert(e(11), runner(1), &vec![e(7), e(8)]);
    assert!(!component.is_empty());
    assert_eq!(component.listeners().len(), 1);
    assert_eq!(component.targeted(e(8)).unwrap().entry(0), &(e(11), runner(1)));
    component.remove(e(11), &vec![e(7), e(8)]);
    assert!(component.targeted(e(8)).is_none());
    assert!(!component.is_empty());
    component.remove(e(10), &vec![]);
    assert!(component.is_empty());
}

#[test]
fn table_keeps_insertion_order() {
    let mut table: ObserverMap = Table::new();
    assert!(table.is_empty());
    assert_eq!(table.insert(e(3), runner(30)), None);
    assert_eq!(table.insert(e(1), runner(10)), None);
    assert_eq!(table.insert(e(2), runner(20)), None);
    assert_eq!(table.insert(e(1), runner(11)), Some(runner(10)));
    assert_eq!(table.keys(), vec![e(3), e(1), e(2)]);
    assert_eq!(table.len(), 3);
    assert_eq!(table.get(e(1)), Some(&runner(11)));
    assert_eq!(table.get(e(4)), None);
    assert_eq!(table.position(e(2)), Some(2));
    assert!(table.contains(e(3)));
    *table.get_mut(e(2)).unwrap() = runner(21);
    assert_eq!(table.remove(e(3)), Some(runner(30)));
    assert_eq!(table.remove(e(3)), None);
    assert_eq!(table.entry(0), &(e(1), runner(11)));
    assert_eq!(table.entry(1), &(e(2), runner(21)));
    assert!(table.get_mut(e(3)).is_none());
}

#[test]
fn flags_as_sets() {
    let mut flags = ArchetypeFlags::empty();
    assert!(flags.contains(ArchetypeFlags::empty()));
    assert!(!flags.contains(ArchetypeFlags::for_on_add()));
    flags.insert(ArchetypeFlags::for_on_add());
    flags.set(ArchetypeFlags::for_on_remove(), true);
    assert!(flags.contains(ArchetypeFlags::for_on_add()));
    assert!(flags.contains(ArchetypeFlags::for_on_remove()));
    assert!(!flags.contains(ArchetypeFlags::for_on_insert()));
    flags.remove(ArchetypeFlags::for_on_add());
    assert_eq!(flags, ArchetypeFlags::for_on_remove());
    flags.set(ArchetypeFlags::for_on_remove(), false);
    assert_eq!(flags, ArchetypeFlags::empty());

    let mut archetypes = Archetypes::new();
    archetypes.update_flags(e(20), ArchetypeFlags::for_on_insert(), true);
    archetypes.update_flags(e(21), ArchetypeFlags::for_on_add(), true);
    archetypes.update_flags(e(20), ArchetypeFlags::for_on_add(), true);
    archetypes.update_flags(e(20), ArchetypeFlags::for_on_insert(), false);
    assert_eq!(archetypes.flags_of(e(20)), ArchetypeFlags::for_on_add());
    assert_eq!(archetypes.flags_of(e(21)), ArchetypeFlags::for_on_add());
    assert_eq!(archetypes.flags_of(e(22)), ArchetypeFlags::empty());
}

#[test]
fn identifiers() {
    assert_eq!(on_add(), e(0));
    assert_eq!(on_insert(), e(1));
    assert_eq!(on_remove(), e(2));
    assert_eq!(Entity::placeholder().to_bits(), u64::MAX);
    assert!(Entity::placeholder().is_placeholder());
    assert!(!e(0).is_placeholder());
    assert_eq!(Entity::from_bits(e(77).to_bits()), e(77));
    assert_eq!(e(5).id, 5);
}
