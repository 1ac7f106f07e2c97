use ecs_core::component::{Component, Trigger};
use ecs_core::cache_model::ObserverTrigger;
use ecs_core::deferred::DeferredWorld;
use ecs_core::entity::{on_add, on_insert, on_remove, ComponentId, Entity};
use ecs_core::listeners::ObserverRunner;
use ecs_core::observer::ObserverDescriptor;
use ecs_core::observer_handle::Observer;
use ecs_core::world::{Dispatch, World};

struct A;

impl Component for A {
    fn type_key() -> u64 {
        1
    }
}

struct B;

impl Component for B {
    fn type_key() -> u64 {
        2
    }
}

struct TriggerA;

impl Component for TriggerA {
    fn type_key() -> u64 {
        100
    }
}

impl Trigger for TriggerA {}

struct R;

impl Component for R {
    fn type_key() -> u64 {
        200
    }
}

type Listener = Box<dyn FnMut(&mut DeferredWorld, &Observer<()>)>;

/// Runs what the store asks to be run: the steps of each dispatch, then the
/// queued changes, one by one, with the dispatches they cause.
struct Driver {
    world: World,
    listeners: Vec<Listener>,
}

impl Driver {
    fn new() -> Driver {
        Driver { world: World::new(), listeners: Vec::new() }
    }

    fn id<T: Component>(&mut self) -> ComponentId {
        self.world.init_component(T::type_key())
    }

    fn init_counter(&mut self) -> ComponentId {
        let id = self.id::<R>();
        self.world.insert_resource(id, 0);
        id
    }

    fn counter(&mut self) -> usize {
        let id = self.id::<R>();
        self.world.resource(id).unwrap()
    }

    fn observer(
        &mut self,
        triggers: Vec<ComponentId>,
        components: Vec<ComponentId>,
        sources: Vec<Entity>,
        listener: impl FnMut(&mut DeferredWorld, &Observer<()>) + 'static,
    ) -> Entity {
        let runner = ObserverRunner { index: self.listeners.len() as u64 };
        self.listeners.push(Box::new(listener));
        let mut builder = self.world.observer_builder(triggers[0]);
        for trigger in triggers.iter().skip(1) {
            builder = builder.on_trigger(*trigger);
        }
        for component in components {
            builder = builder.component(component);
        }
        for source in sources {
            builder = builder.source(source);
        }
        builder.run(runner)
    }

    fn run_steps(&mut self, dispatches: Vec<Dispatch>) {
        for dispatch in dispatches {
            for step in dispatch.steps {
                if self.world.claim_run(step.trigger.observer, dispatch.id) {
                    let listener = &mut self.listeners[step.runner.index as usize];
                    let mut payload = ();
                    let observer = Observer::new(&mut payload, step.trigger);
                    let mut deferred = DeferredWorld::new(&mut self.world);
                    listener(&mut deferred, &observer);
                }
            }
        }
    }

    fn flush(&mut self) {
        while let Some(dispatches) = self.world.flush_next() {
            self.run_steps(dispatches);
        }
    }

    fn run(&mut self, dispatches: Vec<Dispatch>) {
        self.run_steps(dispatches);
        self.flush();
    }

    fn spawn(&mut self, components: Vec<ComponentId>) -> Entity {
        let bundle: Vec<(ComponentId, usize)> = components.into_iter().map(|c| (c, 0)).collect();
        let (entity, dispatches) = self.world.spawn(&bundle);
        self.run(dispatches);
        entity
    }

    fn spawn_empty(&mut self) -> Entity {
        self.world.spawn_empty()
    }

    fn insert(&mut self, entity: Entity, component: ComponentId) {
        let dispatches = self.world.insert(entity, component, 0).unwrap();
        self.run(dispatches);
    }

    fn remove(&mut self, entity: Entity, component: ComponentId) {
        let dispatches = self.world.remove(entity, component).unwrap();
        self.run(dispatches);
    }

    fn despawn(&mut self, entity: Entity) {
        let dispatches = self.world.despawn(entity).unwrap();
        self.run(dispatches);
    }
}

fn assert_order(world: &mut DeferredWorld, counter: ComponentId, count: usize) {
    let value = world.resource_mut(counter);
    assert_eq!(count, *value);
    *value += 1;
}

fn count(world: &mut DeferredWorld, counter: ComponentId) {
    *world.resource_mut(counter) += 1;
}

#[test]
fn observer_order_spawn_despawn() {
    let mut driver = Driver::new();
    let r = driver.init_counter();
    let a = driver.id::<A>();

    driver.observer(vec![on_add()], vec![a], vec![], move |world, _| assert_order(world, r, 0));
    driver.observer(vec![on_insert()], vec![a], vec![], move |world, _| assert_order(world, r, 1));
    driver.observer(vec![on_remove()], vec![a], vec![], move |world, _| assert_order(world, r, 2));

    let entity = driver.spawn(vec![a]);
    driver.despawn(entity);
    assert_eq!(3, driver.counter());
}

#[test]
fn observer_order_insert_remove() {
    let mut driver = Driver::new();
    let r = driver.init_counter();
    let a = driver.id::<A>();

    driver.observer(vec![on_add()], vec![a], vec![], move |world, _| assert_order(world, r, 0));
    driver.observer(vec![on_insert()], vec![a], vec![], move |world, _| assert_order(world, r, 1));
    driver.observer(vec![on_remove()], vec![a], vec![], move |world, _| assert_order(world, r, 2));

    let entity = driver.spawn_empty();
    driver.insert(entity, a);
    driver.remove(entity, a);
    driver.flush();
    assert_eq!(3, driver.counter());
}

#[test]
fn observer_order_recursive() {
    let mut driver = Driver::new();
    let r = driver.init_counter();
    let a = driver.id::<A>();
    let b = driver.id::<B>();
    driver.observer(vec![on_add()], vec![a], vec![], move |world, obs| {
        assert_order(world, r, 0);
        world.commands().insert(obs.source(), b, 0);
    });
    driver.observer(vec![on_remove()], vec![a], vec![], move |world, obs| {
        assert_order(world, r, 2);
        world.commands().remove(obs.source(), b);
    });

    driver.observer(vec![on_add()], vec![b], vec![], move |world, obs| {
        assert_order(world, r, 1);
        world.commands().remove(obs.source(), a);
    });
    driver.observer(vec![on_remove()], vec![b], vec![], move |world, _| {
        assert_order(world, r, 3);
    });

    let entity = driver.spawn(vec![a]);
    let row = driver.world.get_entity(entity).unwrap();
    assert!(!row.contains(a));
    assert!(!row.contains(b));
    assert_eq!(4, driver.counter());
}

#[test]
fn observer_multiple_listeners() {
    let mut driver = Driver::new();
    let r = driver.init_counter();
    let a = driver.id::<A>();

    driver.observer(vec![on_add()], vec![a], vec![], move |world, _| count(world, r));
    driver.observer(vec![on_add()], vec![a], vec![], move |world, _| count(world, r));

    driver.spawn(vec![a]);
    assert_eq!(2, driver.counter());
    // Our A entity plus our two observers
    assert_eq!(driver.world.entities_len(), 3);
}

#[test]
fn observer_multiple_triggerss() {
    let mut driver = Driver::new();
    let r = driver.init_counter();
    let a = driver.id::<A>();

    driver.observer(vec![on_add(), on_remove()], vec![a], vec![], move |world, _| count(world, r));

    let entity = driver.spawn(vec![a]);
    driver.despawn(entity);
    assert_eq!(2, driver.counter());
}

#[test]
fn observer_multiple_components() {
    let mut driver = Driver::new();
    let r = driver.init_counter();
    let a = driver.id::<A>();
    let b = driver.id::<B>();

    driver.observer(vec![on_add()], vec![a, b], vec![], move |world, _| count(world, r));

    let entity = driver.spawn(vec![a]);
    driver.insert(entity, b);
    driver.flush();
    assert_eq!(2, driver.counter());
}

#[test]
fn observer_despawn() {
    let mut driver = Driver::new();
    driver.init_counter();
    let a = driver.id::<A>();

    let observer = driver.observer(vec![on_add()], vec![a], vec![], |_, _| {
        panic!("Observer triggered after being despawned.")
    });
    driver.despawn(observer);
    driver.spawn(vec![a]);
}

#[test]
fn observer_multiple_matches() {
    let mut driver = Driver::new();
    let r = driver.init_counter();
    let a = driver.id::<A>();
    let b = driver.id::<B>();

    driver.observer(vec![on_add()], vec![a, b], vec![], move |world, _| count(world, r));

    driver.spawn(vec![a, b]);
    assert_eq!(1, driver.counter());
}

#[test]
fn observer_no_source() {
    let mut driver = Driver::new();
    let r = driver.init_counter();
    let trigger_a = driver.world.init_trigger::<TriggerA>();

    let bystander = driver.spawn_empty();
    driver.observer(vec![trigger_a], vec![], vec![bystander], |_, _| {
        panic!("Trigger routed to non-targeted entity.")
    });
    driver.observer(vec![trigger_a], vec![], vec![], move |world, obs| {
        assert_eq!(obs.source(), Entity::placeholder());
        count(world, r);
    });

    driver.world.trigger(trigger_a).emit();
    driver.flush();
    assert_eq!(1, driver.counter());
}

#[test]
fn observer_entity_routing() {
    let mut driver = Driver::new();
    let r = driver.init_counter();
    let trigger_a = driver.world.init_trigger::<TriggerA>();

    let bystander = driver.spawn_empty();
    driver.observer(vec![trigger_a], vec![], vec![bystander], |_, _| {
        panic!("Trigger routed to non-targeted entity.")
    });
    let entity = driver.spawn_empty();
    driver.observer(vec![trigger_a], vec![], vec![entity], move |world, _| count(world, r));
    driver.observer(vec![trigger_a], vec![], vec![], move |world, obs| {
        assert_eq!(obs.source(), entity);
        count(world, r);
    });

    driver.world.trigger(trigger_a).entity(entity).emit();
    driver.flush();
    assert_eq!(2, driver.counter());
}

#[test]
fn observer_dynamic_component() {
    let mut driver = Driver::new();
    let r = driver.init_counter();
    let trigger_a = driver.world.init_trigger::<TriggerA>();

    let component_id = driver.world.init_component(A::type_key());
    driver.observer(vec![on_add()], vec![component_id], vec![], move |world, _| count(world, r));

    let entity = driver.spawn_empty();
    driver.insert(entity, component_id);

    driver.world.trigger(trigger_a).entity(entity).emit();
    driver.flush();
    assert_eq!(1, driver.counter());
}

#[test]
fn observer_dynamic_trigger() {
    let mut driver = Driver::new();
    let r = driver.init_counter();

    let trigger = driver.world.init_component(TriggerA::type_key());
    driver.observer(vec![trigger], vec![], vec![], move |world, _| count(world, r));

    driver.world.trigger(trigger).emit();
    driver.flush();
    assert_eq!(1, driver.counter());
}

#[test]
fn listener_is_told_its_own_row_and_the_kind() {
    let mut driver = Driver::new();
    let r = driver.init_counter();
    let a = driver.id::<A>();
    let expected = Entity::from_raw(driver.world.entities_len() as u64 + 3 + 2);
    let observer = driver.observer(vec![on_insert()], vec![a], vec![], move |world, obs| {
        assert_eq!(obs.trigger(), on_insert());
        assert_eq!(obs.observer(), expected);
        assert_eq!(*obs.data(), ());
        count(world, r);
    });
    assert_eq!(observer, expected);
    driver.spawn(vec![a]);
    assert_eq!(1, driver.counter());
}

#[test]
fn descriptor_keeps_what_it_was_made_of() {
    let d = ObserverDescriptor::new(
        vec![on_add(), on_remove()],
        vec![Entity::from_raw(9)],
        vec![Entity::from_raw(4), Entity::from_raw(5)],
    );
    assert_eq!(d.trigger_ids(), &vec![on_add(), on_remove()]);
    assert_eq!(d.component_ids(), &vec![Entity::from_raw(9)]);
    assert_eq!(d.source_ids(), &vec![Entity::from_raw(4), Entity::from_raw(5)]);
    let t = ObserverTrigger { observer: Entity::from_raw(1), trigger: on_add(), source: Entity::from_raw(2) };
    let mut payload = 7usize;
    let mut handle = Observer::new(&mut payload, t);
    *handle.data_mut() += 1;
    assert_eq!(*handle.data(), 8);
    assert_eq!(handle.source(), Entity::from_raw(2));
    assert_eq!(payload, 8);
}
