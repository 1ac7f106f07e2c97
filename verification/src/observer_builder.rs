//! Putting a listener or a signal together step by step.

use vstd::prelude::*;
use crate::component::Trigger;
use crate::entity::{ComponentId, Entity, PLACEHOLDER_ID};
use crate::listeners::ObserverRunner;
use crate::observer::ObserverDescriptor;
use crate::world::{CommandQueue, World};
use crate::world_model::{Command, WorldState, registry_get};

verus! {

/// A listener that is being put together: the signal kinds it listens for
/// and its scope.
pub struct ObserverBuilder<'w> {
    pub triggers: Vec<ComponentId>,
    pub components: Vec<ComponentId>,
    pub sources: Vec<Entity>,
    pub world: &'w mut World,
}

/// A signal that is being put together: its kind and the rows it is about.
pub struct TriggerBuilder<'w> {
    pub trigger: ComponentId,
    pub targets: Vec<Entity>,
    pub queue: &'w mut CommandQueue,
}

/// The commands that send a signal of kind `trigger`: one for each of
/// `targets`, in their order, or one without a target row where there are
/// none.
pub open spec fn trigger_commands(trigger: ComponentId, targets: Seq<Entity>) -> Seq<Command> {
    if targets.len() == 0 {
        seq![Command::Trigger { trigger, target: Entity::placeholder() }]
    } else {
        Seq::new(targets.len(), |i: int| Command::Trigger { trigger, target: targets[i] })
    }
}

impl<'w> ObserverBuilder<'w> {
    /// A listener for the signal kind `trigger`, so far without a scope.
    pub fn new(world: &'w mut World, trigger: ComponentId) -> (builder: Self)
        ensures
            builder.triggers@ == seq![trigger],
            builder.components@ == Seq::<ComponentId>::empty(),
            builder.sources@ == Seq::<Entity>::empty(),
            *builder.world == *old(world),
            *final(builder.world) == *final(world),
    {
        let mut triggers: Vec<ComponentId> = Vec::new();
        triggers.push(trigger);
        ObserverBuilder { triggers, components: Vec::new(), sources: Vec::new(), world }
    }

    /// Makes the listener listen for the signal kind `trigger` as well.
    pub fn on_trigger(self, trigger: ComponentId) -> (builder: Self)
        ensures
            builder.triggers@ == self.triggers@.push(trigger),
            builder.components == self.components,
            builder.sources == self.sources,
            *builder.world == *old(self.world),
            *final(builder.world) == *final(self.world),
    {
        let mut builder = self;
        builder.triggers.push(trigger);
        builder
    }

    /// Adds `component` to the components that the listener is scoped to.
    pub fn component(self, component: ComponentId) -> (builder: Self)
        ensures
            builder.triggers == self.triggers,
            builder.components@ == self.components@.push(component),
            builder.sources == self.sources,
            *builder.world == *old(self.world),
            *final(builder.world) == *final(self.world),
    {
        let mut builder = self;
        builder.components.push(component);
        builder
    }

    /// Adds `source` to the rows that the listener is scoped to.
    pub fn source(self, source: Entity) -> (builder: Self)
        ensures
            builder.triggers == self.triggers,
            builder.components == self.components,
            builder.sources@ == self.sources@.push(source),
            *builder.world == *old(self.world),
            *final(builder.world) == *final(self.world),
    {
        let mut builder = self;
        builder.sources.push(source);
        builder
    }

    /// Creates the listener on a new row, to be run by `runner`, registers it
    /// and returns the row.
    pub fn run(self, runner: ObserverRunner) -> (entity: Entity)
        requires
            old(self.world).wf(),
            old(self.world)@.next_id < PLACEHOLDER_ID,
        ensures
            final(self.world).wf(),
            entity == (Entity { id: old(self.world)@.next_id }),
            final(self.world)@ == old(self.world)@.observed(
                self.triggers@,
                self.components@,
                self.sources@,
                runner,
            ),
    {
        let descriptor = ObserverDescriptor::new(self.triggers, self.components, self.sources);
        self.world.observer(descriptor, runner)
    }
}

impl<'w> TriggerBuilder<'w> {
    /// A signal of the kind `trigger`, so far about no row, to be queued in
    /// `queue`.
    pub fn new(queue: &'w mut CommandQueue, trigger: ComponentId) -> (builder: Self)
        ensures
            builder.trigger == trigger,
            builder.targets@ == Seq::<Entity>::empty(),
            *builder.queue == *old(queue),
            *final(builder.queue) == *final(queue),
    {
        TriggerBuilder { trigger, targets: Vec::new(), queue }
    }

    /// Makes the signal one about the row `entity` as well.
    pub fn entity(self, entity: Entity) -> (builder: Self)
        ensures
            builder.trigger == self.trigger,
            builder.targets@ == self.targets@.push(entity),
            *builder.queue == *old(self.queue),
            *final(builder.queue) == *final(self.queue),
    {
        let mut builder = self;
        builder.targets.push(entity);
        builder
    }

    /// Queues the signal: once for each row it is about, or once without a
    /// target row where it is about none.
    pub fn emit(self)
        ensures
            final(self.queue)@ == old(self.queue)@ + trigger_commands(self.trigger, self.targets@),
    {
        let queue = self.queue;
        let ghost before = queue@;
        if self.targets.len() == 0 {
            queue.trigger(self.trigger, Entity::placeholder());
            proof {
                assert(queue@ =~= before + trigger_commands(self.trigger, self.targets@));
            }
        } else {
            let mut i: usize = 0;
            proof {
                assert(before + Seq::empty() =~= before);
            }
            while i < self.targets.len()
                invariant
                    i <= self.targets.len(),
                    self.targets.len() > 0,
                    queue@ == before + trigger_commands(self.trigger, self.targets@).take(i as int),
                decreases self.targets.len() - i,
            {
                queue.trigger(self.trigger, self.targets[i]);
                proof {
                    let all = trigger_commands(self.trigger, self.targets@);
                    assert(queue@ =~= before + all.take(i + 1));
                }
                i = i + 1;
            }
            proof {
                let all = trigger_commands(self.trigger, self.targets@);
                assert(all.take(self.targets.len() as int) =~= all);
            }
        }
    }
}

impl World {
    /// Starts a listener for the signal kind `trigger`.
    pub fn observer_builder(&mut self, trigger: ComponentId) -> (builder: ObserverBuilder<'_>)
        ensures
            builder.triggers@ == seq![trigger],
            builder.components@ == Seq::<ComponentId>::empty(),
            builder.sources@ == Seq::<Entity>::empty(),
            *builder.world == *old(self),
            *final(builder.world) == *final(self),
    {
        ObserverBuilder::new(self, trigger)
    }

    /// Registers the signal kind `T`, if it is not registered, and returns
    /// its identifier.
    pub fn init_trigger<T: Trigger>(&mut self) -> (id: ComponentId)
        requires
            old(self).wf(),
            old(self)@.next_id < PLACEHOLDER_ID,
        ensures
            final(self).wf(),
            exists|key: u64|
                final(self)@ == old(self)@.with_component(key) && Some(id) == #[trigger] registry_get(
                    final(self)@.registry,
                    key,
                ),
    {
        let key = T::type_key();
        let id = self.init_component(key);
        proof {
            assert(final(self)@ == old(self)@.with_component(key) && Some(id) == registry_get(
                self@.registry,
                key,
            ));
        }
        id
    }

    /// Starts a signal of the kind `trigger`, to be queued with `emit`.
    pub fn trigger(&mut self, trigger: ComponentId) -> (builder: TriggerBuilder<'_>)
        requires
            old(self).wf(),
        ensures
            builder.trigger == trigger,
            builder.targets@ == Seq::<Entity>::empty(),
            builder.queue@ == old(self)@.commands,
            final(self).wf(),
            final(self)@ == (WorldState { commands: final(builder.queue)@, ..old(self)@ }),
    {
        TriggerBuilder::new(self.commands(), trigger)
    }
}

} // verus!
