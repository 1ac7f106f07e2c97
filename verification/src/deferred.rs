//! The view of the store that listeners work with. Through it a listener can
//! read everything, change values in place, send events and queue structural
//! changes; it cannot change the structure of the store itself.

use vstd::prelude::*;
use crate::entity::{ComponentId, Entity};
use crate::query::QueryState;
use crate::table::{entries_get, entries_has, entries_index, entries_insert, entries_keys};
use crate::observer_builder::TriggerBuilder;
use crate::world::{CommandQueue, Dispatch, World, matching_rows};
use crate::world_model::{Command, WorldState, same_listener};

verus! {

/// A handle on the store that does not let its structure be changed.
pub struct DeferredWorld<'w> {
    world: &'w mut World,
}

/// A handle on one row that lets its values be read and changed, and nothing
/// be attached or taken.
pub struct EntityMut<'w> {
    entity: Entity,
    world: &'w mut World,
}

impl<'w> EntityMut<'w> {
    /// The reference to the store that the handle holds.
    pub closed spec fn handle(self) -> &'w mut World {
        self.world
    }

    /// The store behind the handle, as it is now.
    pub open spec fn world(self) -> World {
        *self.handle()
    }

    /// The row that the handle is on.
    pub closed spec fn entity(&self) -> Entity {
        self.entity
    }

    /// Gives the handle up. From here on the store is what it was made
    /// through the handle.
    pub fn release(self)
        ensures
            *final(self.handle()) == self.world(),
    {
    }

    /// The row that the handle is on.
    pub fn id(&self) -> (entity: Entity)
        ensures
            entity == self.entity(),
    {
        self.entity
    }

    /// Whether the row has `component`.
    pub fn contains(&self, component: ComponentId) -> (b: bool)
        requires
            self.world().wf(),
        ensures
            b == self.world()@.value(self.entity(), component).is_some(),
    {
        self.world.has_component(self.entity, component)
    }

    /// The value of `component` on the row.
    pub fn get(&self, component: ComponentId) -> (value: Option<usize>)
        requires
            self.world().wf(),
        ensures
            value == self.world()@.value(self.entity(), component),
    {
        self.world.get(self.entity, component)
    }

    /// The value of `component` on the row, to be changed in place.
    pub fn get_mut(&mut self, component: ComponentId) -> (value: Option<&mut usize>)
        requires
            old(self).world().wf(),
        ensures
            final(self).world().wf(),
            final(self).entity() == old(self).entity(),
            *final(final(self).handle()) == *final(old(self).handle()),
            match value {
                Some(v) => old(self).world()@.value(old(self).entity(), component) == Some(*v)
                    && final(self).world()@ == old(self).world()@.with_value(
                    old(self).entity(),
                    component,
                    *final(v),
                ),
                None => old(self).world()@.value(old(self).entity(), component).is_none() && final(self).world()@ == old(self).world()@,
            },
    {
        self.world.get_mut(self.entity, component)
    }
}

impl<'w> DeferredWorld<'w> {
    /// The reference to the store that the handle holds.
    pub closed spec fn handle(self) -> &'w mut World {
        self.world
    }

    /// The store behind the handle, as it is now.
    pub open spec fn world(self) -> World {
        *self.handle()
    }

    /// A handle on `world`. What is done through the handle is done to
    /// `world`.
    pub fn new(world: &'w mut World) -> (deferred: Self)
        ensures
            deferred.world() == *old(world),
            *final(deferred.handle()) == *final(world),
    {
        DeferredWorld { world }
    }

    /// Another handle on the same store, for as long as it is used. What is
    /// done through it is seen through this handle afterwards.
    #[inline]
    pub fn reborrow(&mut self) -> (deferred: DeferredWorld<'_>)
        ensures
            deferred.world() == old(self).world(),
            final(self).world() == *final(deferred.handle()),
            *final(final(self).handle()) == *final(old(self).handle()),
    {
        DeferredWorld { world: self.world }
    }

    /// Gives the handle up. From here on the store is what it was made
    /// through the handle.
    pub fn release(self)
        ensures
            *final(self.handle()) == self.world(),
    {
    }

    /// The store, to be read.
    pub fn as_world(&self) -> (world: &World)
        ensures
            *world == self.world(),
    {
        self.world
    }

    /// The queue of structural changes, to be added to.
    #[inline]
    pub fn commands(&mut self) -> (queue: &mut CommandQueue)
        requires
            old(self).world().wf(),
        ensures
            *final(final(self).handle()) == *final(old(self).handle()),
            queue@ == old(self).world()@.commands,
            final(self).world().wf(),
            final(self).world()@ == (WorldState {
                commands: final(queue)@,
                ..old(self).world()@
            }),
    {
        self.world.commands()
    }

    /// The value of `component` on the row `entity`, to be changed in place;
    /// none where the row does not exist or lacks the component.
    #[inline]
    pub fn get_mut(&mut self, entity: Entity, component: ComponentId) -> (value: Option<&mut usize>)
        requires
            old(self).world().wf(),
        ensures
            *final(final(self).handle()) == *final(old(self).handle()),
            final(self).world().wf(),
            match value {
                Some(v) => old(self).world()@.value(entity, component) == Some(*v) && final(self).world()@ == old(self).world()@.with_value(entity, component, *final(v)),
                None => old(self).world()@.value(entity, component).is_none() && final(self).world()@ == old(self).world()@,
            },
    {
        self.world.get_mut(entity, component)
    }

    /// A handle on the row `entity`; none where the row does not exist.
    #[inline]
    pub fn get_entity_mut(&mut self, entity: Entity) -> (handle: Option<EntityMut<'_>>)
        requires
            old(self).world().wf(),
        ensures
            handle.is_some() == old(self).world()@.has_row(entity),
            handle.is_some() ==> handle.unwrap().entity() == entity && handle.unwrap().world()
                == old(self).world() && final(self).world() == *final(handle.unwrap().handle()),
            handle.is_none() ==> final(self).world() == old(self).world(),
            *final(final(self).handle()) == *final(old(self).handle()),
    {
        if self.world.contains(entity) {
            Some(EntityMut { entity, world: self.world })
        } else {
            None
        }
    }

    /// A handle on the row `entity`, which has to exist.
    #[inline]
    pub fn entity_mut(&mut self, entity: Entity) -> (handle: EntityMut<'_>)
        requires
            old(self).world().wf(),
            old(self).world()@.has_row(entity),
        ensures
            handle.entity() == entity,
            handle.world() == old(self).world(),
            final(self).world() == *final(handle.handle()),
            *final(final(self).handle()) == *final(old(self).handle()),
    {
        EntityMut { entity, world: self.world }
    }

    /// The rows that match `state`, in the order in which they were created.
    #[inline]
    pub fn query(&mut self, state: &QueryState) -> (rows: Vec<Entity>)
        requires
            old(self).world().wf(),
            state.wf(),
        ensures
            *final(final(self).handle()) == *final(old(self).handle()),
            final(self).world() == old(self).world(),
            rows@ == matching_rows(old(self).world()@.rows, *state),
    {
        self.world.query(state)
    }

    /// The value of the resource `id`, which has to exist, to be changed in
    /// place.
    #[inline]
    pub fn resource_mut(&mut self, id: ComponentId) -> (value: &mut usize)
        requires
            old(self).world().wf(),
            entries_has(old(self).world()@.resources, id),
        ensures
            *final(final(self).handle()) == *final(old(self).handle()),
            final(self).world().wf(),
            entries_get(old(self).world()@.resources, id) == Some(*value),
            final(self).world()@ == (WorldState {
                resources: entries_insert(old(self).world()@.resources, id, *final(value)),
                ..old(self).world()@
            }),
    {
        self.world.resource_mut(id).unwrap()
    }

    /// The value of the resource `id`, to be changed in place; none where the
    /// store has no such resource.
    #[inline]
    pub fn get_resource_mut(&mut self, id: ComponentId) -> (value: Option<&mut usize>)
        requires
            old(self).world().wf(),
        ensures
            *final(final(self).handle()) == *final(old(self).handle()),
            final(self).world().wf(),
            match value {
                Some(v) => entries_get(old(self).world()@.resources, id) == Some(*v) && final(self).world()@ == (WorldState {
                    resources: entries_insert(old(self).world()@.resources, id, *final(v)),
                    ..old(self).world()@
                }),
                None => entries_get(old(self).world()@.resources, id).is_none() && final(self).world()@ == old(self).world()@,
            },
    {
        self.world.resource_mut(id)
    }

    /// The value of the thread-bound resource `id`, which has to exist, to be
    /// changed in place.
    #[inline]
    pub fn non_send_resource_mut(&mut self, id: ComponentId) -> (value: &mut usize)
        requires
            old(self).world().wf(),
            entries_has(old(self).world()@.non_send, id),
        ensures
            *final(final(self).handle()) == *final(old(self).handle()),
            final(self).world().wf(),
            entries_get(old(self).world()@.non_send, id) == Some(*value),
            final(self).world()@ == (WorldState {
                non_send: entries_insert(old(self).world()@.non_send, id, *final(value)),
                ..old(self).world()@
            }),
    {
        self.world.non_send_resource_mut(id).unwrap()
    }

    /// The value of the thread-bound resource `id`, to be changed in place;
    /// none where the store has no such resource.
    #[inline]
    pub fn get_non_send_resource_mut(&mut self, id: ComponentId) -> (value: Option<&mut usize>)
        requires
            old(self).world().wf(),
        ensures
            *final(final(self).handle()) == *final(old(self).handle()),
            final(self).world().wf(),
            match value {
                Some(v) => entries_get(old(self).world()@.non_send, id) == Some(*v) && final(self).world()@ == (WorldState {
                    non_send: entries_insert(old(self).world()@.non_send, id, *final(v)),
                    ..old(self).world()@
                }),
                None => entries_get(old(self).world()@.non_send, id).is_none() && final(self).world()@ == old(self).world()@,
            },
    {
        self.world.non_send_resource_mut(id)
    }

    /// Sends one event of the kind `kind` and returns its number; none where
    /// the store does not take events of that kind.
    #[inline]
    pub fn send_event(&mut self, kind: ComponentId, value: usize) -> (id: Option<usize>)
        requires
            old(self).world().wf(),
        ensures
            *final(final(self).handle()) == *final(old(self).handle()),
            final(self).world().wf(),
            final(self).world()@ == old(self).world()@.sent(kind, seq![value]),
            id == if entries_has(old(self).world()@.events, kind) {
                Some(old(self).world()@.events_of(kind).len() as usize)
            } else {
                None
            },
    {
        self.world.send_event(kind, value)
    }

    /// Sends one event of the kind `kind` with the value zero and returns its
    /// number; none where the store does not take events of that kind.
    #[inline]
    pub fn send_event_default(&mut self, kind: ComponentId) -> (id: Option<usize>)
        requires
            old(self).world().wf(),
        ensures
            *final(final(self).handle()) == *final(old(self).handle()),
            final(self).world().wf(),
            final(self).world()@ == old(self).world()@.sent(kind, seq![0usize]),
            id == if entries_has(old(self).world()@.events, kind) {
                Some(old(self).world()@.events_of(kind).len() as usize)
            } else {
                None
            },
    {
        self.world.send_event(kind, 0)
    }

    /// Sends the events `values` of the kind `kind` and returns the number of
    /// the first of them and how many they are; none where the store does not
    /// take events of that kind.
    #[inline]
    pub fn send_event_batch(&mut self, kind: ComponentId, values: &Vec<usize>) -> (ids: Option<
        (usize, usize),
    >)
        requires
            old(self).world().wf(),
        ensures
            *final(final(self).handle()) == *final(old(self).handle()),
            final(self).world().wf(),
            final(self).world()@ == old(self).world()@.sent(kind, values@),
            ids == if entries_has(old(self).world()@.events, kind) {
                Some((old(self).world()@.events_of(kind).len() as usize, values@.len() as usize))
            } else {
                None
            },
    {
        self.world.send_event_batch(kind, values)
    }

    /// Counts one more dispatch and returns it: the listeners that a signal
    /// of kind `event` about `target` that touched `components` reaches.
    #[inline]
    pub fn trigger_observers(
        &mut self,
        event: ComponentId,
        target: Entity,
        components: &Vec<ComponentId>,
    ) -> (dispatch: Dispatch)
        requires
            old(self).world().wf(),
        ensures
            *final(final(self).handle()) == *final(old(self).handle()),
            final(self).world().wf(),
            final(self).world()@ == old(self).world()@.counted(),
            dispatch@ == old(self).world()@.signal(event, target, components@),
    {
        self.world.trigger_observers(event, target, components)
    }

    /// Whether the listener `observer` is to run in the dispatch with the
    /// number `dispatch`; a listener that is to run is marked as having run.
    pub fn claim_run(&mut self, observer: Entity, dispatch: u64) -> (run: bool)
        requires
            old(self).world().wf(),
        ensures
            *final(final(self).handle()) == *final(old(self).handle()),
            final(self).world().wf(),
            run == old(self).world()@.may_run(observer, dispatch),
            final(self).world()@ == old(self).world()@.claimed(observer, dispatch),
    {
        self.world.claim_run(observer, dispatch)
    }

    /// A signal of the kind `trigger`, so far about no row, to be queued with
    /// `emit`.
    pub fn ecs_event(&mut self, trigger: ComponentId) -> (builder: TriggerBuilder<'_>)
        requires
            old(self).world().wf(),
        ensures
            *final(final(self).handle()) == *final(old(self).handle()),
            builder.trigger == trigger,
            builder.targets@ == Seq::<Entity>::empty(),
            builder.queue@ == old(self).world()@.commands,
            final(self).world().wf(),
            final(self).world()@ == (WorldState {
                commands: final(builder.queue)@,
                ..old(self).world()@
            }),
    {
        TriggerBuilder::new(self.world.commands(), trigger)
    }
}

/// Nothing that can be done through a handle changes the structure of the
/// store: the rows and their components, the identifiers handed out, the
/// registered component kinds, the resources and event kinds there are, the
/// listeners and the observer cache all stay. This is what queueing a change,
/// changing a value in place, sending events, counting a dispatch and marking
/// a listener as having run make of a store.
pub proof fn lemma_handle_keeps_structure(
    before: WorldState,
    command: Command,
    entity: Entity,
    component: ComponentId,
    value: usize,
    values: Seq<usize>,
    dispatch: u64,
)
    ensures
        before.same_structure(WorldState { commands: before.commands.push(command), ..before }),
        before.value(entity, component).is_some() ==> before.same_structure(
            before.with_value(entity, component, value),
        ),
        entries_has(before.resources, component) ==> before.same_structure(
            WorldState { resources: entries_insert(before.resources, component, value), ..before },
        ),
        entries_has(before.non_send, component) ==> before.same_structure(
            WorldState { non_send: entries_insert(before.non_send, component, value), ..before },
        ),
        before.same_structure(before.sent(component, values)),
        before.same_structure(before.counted()),
        before.same_structure(before.claimed(entity, dispatch)),
{
    let queued = WorldState { commands: before.commands.push(command), ..before };
    assert(before.same_structure(queued));
    assert(before.same_structure(before.counted()));
    if before.value(entity, component).is_some() {
        let row = before.row(entity);
        let at = entries_index(before.rows, entity);
        let col = entries_index(row, component);
        assert(entries_has(row, component));
        assert(0 <= col < row.len() && row[col].0 == component);
        assert(entries_has(before.rows, entity));
        assert(0 <= at < before.rows.len() && before.rows[at].0 == entity);
        let changed_row = entries_insert(row, component, value);
        assert(entries_keys(changed_row) =~= entries_keys(row));
        let after = before.with_value(entity, component, value);
        assert(entries_keys(after.rows) =~= entries_keys(before.rows));
        assert forall|i: int| 0 <= i < before.rows.len() implies entries_keys(
            (#[trigger] before.rows[i]).1,
        ) == entries_keys(after.rows[i].1) by {
            if i == at {
                assert(after.rows[i].1 == changed_row);
                assert(before.rows[i].1 == row);
            }
        }
    }
    if entries_has(before.resources, component) {
        let at = entries_index(before.resources, component);
        assert(0 <= at < before.resources.len() && before.resources[at].0 == component);
        assert(entries_keys(entries_insert(before.resources, component, value)) =~= entries_keys(
            before.resources,
        ));
    }
    if entries_has(before.non_send, component) {
        let at = entries_index(before.non_send, component);
        assert(0 <= at < before.non_send.len() && before.non_send[at].0 == component);
        assert(entries_keys(entries_insert(before.non_send, component, value)) =~= entries_keys(
            before.non_send,
        ));
    }
    if entries_has(before.events, component) {
        let at = entries_index(before.events, component);
        assert(0 <= at < before.events.len() && before.events[at].0 == component);
        assert(entries_keys(
            entries_insert(before.events, component, before.events_of(component) + values),
        ) =~= entries_keys(before.events));
    }
    assert(before.same_structure(before.sent(component, values)));
    match entries_get(before.listeners, entity) {
        Some(listener) => {
            let at = entries_index(before.listeners, entity);
            assert(0 <= at < before.listeners.len() && before.listeners[at].0 == entity);
            let after = before.claimed(entity, dispatch).listeners;
            assert forall|i: int| 0 <= i < before.listeners.len() implies same_listener(
                #[trigger] before.listeners[i],
                after[i],
            ) by {
                if i == at {
                    assert(before.listeners[at].1 == listener);
                }
            }
        },
        None => {},
    }
    assert(before.same_structure(before.claimed(entity, dispatch)));
}

} // verus!
