//! What holds of registration, unregistration and dispatch, proved of the
//! cache as a mathematical value.

use vstd::prelude::*;
use crate::cache_model::{
    ComponentListeners,
    Components,
    ObserverCache,
    SignalListeners,
    Targets,
    component_insert,
    component_remove,
    components_get,
    components_insert,
    components_remove,
    components_wf,
    invocations,
    target_insert,
    target_remove,
    targets_get,
    targets_insert,
    targets_remove,
    targets_wf,
};
use crate::entity::{ComponentId, Entity};
use crate::listeners::{Listeners, ObserverRunner};
use crate::table::{
    entries_get,
    entries_has,
    entries_index,
    entries_insert,
    entries_remove,
    entries_unique,
    lemma_entries_insert,
    lemma_entries_remove,
};

verus! {

/// A place in which the listeners of one signal kind are kept.
pub enum Bucket {
    /// The listeners without any scope.
    Unscoped,
    /// The listeners scoped to one row only.
    Row(Entity),
    /// The listeners scoped to one component, on any row.
    Component(ComponentId),
    /// The listeners scoped to one component on one row.
    ComponentRow(ComponentId, Entity),
}

/// Whether a listener whose scope is `components` and `sources` belongs in
/// the bucket `bucket`.
pub open spec fn designated(bucket: Bucket, components: Seq<ComponentId>, sources: Seq<Entity>) -> bool {
    match bucket {
        Bucket::Unscoped => components.len() == 0 && sources.len() == 0,
        Bucket::Row(source) => components.len() == 0 && sources.contains(source),
        Bucket::Component(component) => components.contains(component) && sources.len() == 0,
        Bucket::ComponentRow(component, source) => components.contains(component)
            && sources.contains(source),
    }
}

/// The listeners that `listeners` keeps in the bucket `bucket`; an entry that
/// is not there counts as a bucket without listeners.
pub open spec fn bucket_of(listeners: SignalListeners, bucket: Bucket) -> Listeners {
    match bucket {
        Bucket::Unscoped => listeners.map,
        Bucket::Row(source) => targets_get(listeners.entity_observers, source),
        Bucket::Component(component) => components_get(
            listeners.component_observers,
            component,
        ).map,
        Bucket::ComponentRow(component, source) => targets_get(
            components_get(listeners.component_observers, component).entity_map,
            source,
        ),
    }
}

/// Whether `observer` is registered anywhere in the cache.
pub open spec fn mentions(cache: ObserverCache, observer: Entity) -> bool {
    exists|trigger: ComponentId, bucket: Bucket| #[trigger]
        entries_has(bucket_of(cache.slot(trigger), bucket), observer)
}

/// Whether a listener with the given scope is to run for a signal about
/// `source` that touched `touched`.
pub open spec fn listens(
    components: Seq<ComponentId>,
    sources: Seq<Entity>,
    source: Entity,
    touched: Seq<ComponentId>,
) -> bool {
    &&& sources.len() == 0 || (source != Entity::placeholder() && sources.contains(source))
    &&& components.len() == 0 || exists|i: int|
        0 <= i < touched.len() && components.contains(#[trigger] touched[i])
}

proof fn lemma_has_concat(a: Listeners, b: Listeners, observer: Entity)
    ensures
        entries_has(a + b, observer) <==> entries_has(a, observer) || entries_has(b, observer),
{
    let c = a + b;
    if entries_has(c, observer) {
        let i = choose|i: int| 0 <= i < c.len() && (#[trigger] c[i]).0 == observer;
        if i < a.len() {
            assert(a[i].0 == observer);
        } else {
            assert(b[i - a.len()].0 == observer);
        }
    }
    if entries_has(a, observer) {
        let i = choose|i: int| 0 <= i < a.len() && (#[trigger] a[i]).0 == observer;
        assert(c[i].0 == observer);
    }
    if entries_has(b, observer) {
        let i = choose|i: int| 0 <= i < b.len() && (#[trigger] b[i]).0 == observer;
        assert(c[i + a.len()].0 == observer);
    }
}

proof fn lemma_empty_listeners(observer: Entity)
    ensures
        entries_unique(Listeners::empty()),
        !entries_has(Listeners::empty(), observer),
        entries_remove(Listeners::empty(), observer) == Listeners::empty(),
{
}

/// Registering the same listener again with the same runner changes nothing.
proof fn lemma_insert_twice(s: Listeners, observer: Entity, runner: ObserverRunner)
    requires
        entries_unique(s),
    ensures
        entries_insert(entries_insert(s, observer, runner), observer, runner) == entries_insert(
            s,
            observer,
            runner,
        ),
{
    let t = entries_insert(s, observer, runner);
    lemma_entries_insert(s, observer, runner);
    let i = entries_index(t, observer);
    assert(entries_get(t, observer) == Some(runner));
    assert(0 <= i < t.len() && t[i].0 == observer);
    assert(t.update(i, (observer, runner)) =~= t);
}

/// Taking the same listener out again changes nothing.
proof fn lemma_remove_twice(s: Listeners, observer: Entity)
    requires
        entries_unique(s),
    ensures
        entries_remove(entries_remove(s, observer), observer) == entries_remove(s, observer),
{
    lemma_entries_remove(s, observer);
}

proof fn lemma_contains_last<A>(s: Seq<A>, x: A)
    requires
        s.len() > 0,
    ensures
        s.contains(x) <==> s.drop_last().contains(x) || s.last() == x,
{
    if s.contains(x) {
        let i = choose|i: int| 0 <= i < s.len() && s[i] == x;
        if i < s.len() - 1 {
            assert(s.drop_last()[i] == x);
        }
    }
    if s.drop_last().contains(x) {
        let i = choose|i: int| 0 <= i < s.drop_last().len() && s.drop_last()[i] == x;
        assert(s[i] == x);
    }
    if s.last() == x {
        assert(s[s.len() - 1] == x);
    }
}

proof fn lemma_targets_get_unique(m: Targets, source: Entity)
    requires
        targets_wf(m),
    ensures
        entries_unique(targets_get(m, source)),
{
    if m.contains_key(source) {
    }
}

proof fn lemma_target_insert_one(
    m: Targets,
    target: Entity,
    observer: Entity,
    runner: ObserverRunner,
    source: Entity,
)
    requires
        targets_wf(m),
    ensures
        targets_wf(target_insert(m, target, observer, runner)),
        targets_get(target_insert(m, target, observer, runner), source) == if source == target {
            entries_insert(targets_get(m, source), observer, runner)
        } else {
            targets_get(m, source)
        },
{
    lemma_targets_get_unique(m, target);
    lemma_entries_insert(targets_get(m, target), observer, runner);
    let after = target_insert(m, target, observer, runner);
    assert forall|other: Entity| #[trigger] after.contains_key(other) implies entries_unique(
        after[other],
    ) && after[other].len() > 0 by {
        if other != target {
            assert(m.contains_key(other));
        }
    }
}

proof fn lemma_target_remove_one(m: Targets, target: Entity, observer: Entity, source: Entity)
    requires
        targets_wf(m),
    ensures
        targets_wf(target_remove(m, target, observer)),
        targets_get(target_remove(m, target, observer), source) == if source == target {
            entries_remove(targets_get(m, source), observer)
        } else {
            targets_get(m, source)
        },
{
    lemma_targets_get_unique(m, target);
    lemma_entries_remove(targets_get(m, target), observer);
    let after = target_remove(m, target, observer);
    assert forall|other: Entity| #[trigger] after.contains_key(other) implies entries_unique(
        after[other],
    ) && after[other].len() > 0 by {
        if other != target {
            assert(m.contains_key(other));
        }
    }
    if source == target {
        assert(targets_get(after, source) =~= entries_remove(targets_get(m, source), observer));
    }
}

/// Registration for a list of target rows puts the listener into the bucket
/// of each of them and changes no other bucket.
pub proof fn lemma_targets_insert(
    m: Targets,
    sources: Seq<Entity>,
    observer: Entity,
    runner: ObserverRunner,
    source: Entity,
)
    requires
        targets_wf(m),
    ensures
        targets_wf(targets_insert(m, sources, observer, runner)),
        targets_get(targets_insert(m, sources, observer, runner), source) == if sources.contains(
            source,
        ) {
            entries_insert(targets_get(m, source), observer, runner)
        } else {
            targets_get(m, source)
        },
        sources.len() > 0 ==> !targets_insert(m, sources, observer, runner).is_empty(),
    decreases sources.len(),
{
    if sources.len() > 0 {
        let before = targets_insert(m, sources.drop_last(), observer, runner);
        lemma_targets_insert(m, sources.drop_last(), observer, runner, source);
        lemma_target_insert_one(before, sources.last(), observer, runner, source);
        lemma_contains_last(sources, source);
        lemma_targets_get_unique(m, source);
        lemma_insert_twice(targets_get(m, source), observer, runner);
        assert(targets_insert(m, sources, observer, runner).contains_key(sources.last()));
    }
}

/// Unregistration for a list of target rows takes the listener out of the
/// bucket of each of them and changes no other bucket.
pub proof fn lemma_targets_remove(m: Targets, sources: Seq<Entity>, observer: Entity, source: Entity)
    requires
        targets_wf(m),
    ensures
        targets_wf(targets_remove(m, sources, observer)),
        targets_get(targets_remove(m, sources, observer), source) == if sources.contains(source) {
            entries_remove(targets_get(m, source), observer)
        } else {
            targets_get(m, source)
        },
    decreases sources.len(),
{
    if sources.len() > 0 {
        let before = targets_remove(m, sources.drop_last(), observer);
        lemma_targets_remove(m, sources.drop_last(), observer, source);
        lemma_target_remove_one(before, sources.last(), observer, source);
        lemma_contains_last(sources, source);
        lemma_targets_get_unique(m, source);
        lemma_remove_twice(targets_get(m, source), observer);
    }
}

/// What registration does to the listeners of one component.
proof fn lemma_component_listeners_insert(
    c: ComponentListeners,
    observer: Entity,
    runner: ObserverRunner,
    sources: Seq<Entity>,
    source: Entity,
)
    requires
        c.wf(),
    ensures
        c.insert(observer, runner, sources).wf(),
        !c.insert(observer, runner, sources).is_empty(),
        c.insert(observer, runner, sources).map == if sources.len() == 0 {
            entries_insert(c.map, observer, runner)
        } else {
            c.map
        },
        targets_get(c.insert(observer, runner, sources).entity_map, source) == if sources.contains(
            source,
        ) {
            entries_insert(targets_get(c.entity_map, source), observer, runner)
        } else {
            targets_get(c.entity_map, source)
        },
{
    lemma_entries_insert(c.map, observer, runner);
    lemma_targets_insert(c.entity_map, sources, observer, runner, source);
}

/// What unregistration does to the listeners of one component.
proof fn lemma_component_listeners_remove(
    c: ComponentListeners,
    observer: Entity,
    sources: Seq<Entity>,
    source: Entity,
)
    requires
        c.wf(),
    ensures
        c.remove(observer, sources).wf(),
        c.remove(observer, sources).map == if sources.len() == 0 {
            entries_remove(c.map, observer)
        } else {
            c.map
        },
        targets_get(c.remove(observer, sources).entity_map, source) == if sources.contains(source) {
            entries_remove(targets_get(c.entity_map, source), observer)
        } else {
            targets_get(c.entity_map, source)
        },
{
    lemma_entries_remove(c.map, observer);
    lemma_targets_remove(c.entity_map, sources, observer, source);
}

proof fn lemma_components_get_wf(m: Components, component: ComponentId)
    requires
        components_wf(m),
    ensures
        components_get(m, component).wf(),
{
    if m.contains_key(component) {
    }
}

proof fn lemma_component_insert_one(
    m: Components,
    target: ComponentId,
    observer: Entity,
    runner: ObserverRunner,
    sources: Seq<Entity>,
    component: ComponentId,
    source: Entity,
)
    requires
        components_wf(m),
    ensures
        components_wf(component_insert(m, target, observer, runner, sources)),
        components_get(component_insert(m, target, observer, runner, sources), component).map
            == if component == target && sources.len() == 0 {
            entries_insert(components_get(m, component).map, observer, runner)
        } else {
            components_get(m, component).map
        },
        targets_get(
            components_get(
                component_insert(m, target, observer, runner, sources),
                component,
            ).entity_map,
            source,
        ) == if component == target && sources.contains(source) {
            entries_insert(
                targets_get(components_get(m, component).entity_map, source),
                observer,
                runner,
            )
        } else {
            targets_get(components_get(m, component).entity_map, source)
        },
{
    lemma_components_get_wf(m, target);
    lemma_component_listeners_insert(components_get(m, target), observer, runner, sources, source);
    let after = component_insert(m, target, observer, runner, sources);
    assert forall|other: ComponentId| #[trigger] after.contains_key(other) implies after[other].wf()
        && !after[other].is_empty() by {
        if other != target {
            assert(m.contains_key(other));
        }
    }
}

proof fn lemma_component_remove_one(
    m: Components,
    target: ComponentId,
    observer: Entity,
    sources: Seq<Entity>,
    component: ComponentId,
    source: Entity,
)
    requires
        components_wf(m),
    ensures
        components_wf(component_remove(m, target, observer, sources)),
        components_get(component_remove(m, target, observer, sources), component).map
            == if component == target && sources.len() == 0 {
            entries_remove(components_get(m, component).map, observer)
        } else {
            components_get(m, component).map
        },
        targets_get(
            components_get(component_remove(m, target, observer, sources), component).entity_map,
            source,
        ) == if component == target && sources.contains(source) {
            entries_remove(targets_get(components_get(m, component).entity_map, source), observer)
        } else {
            targets_get(components_get(m, component).entity_map, source)
        },
{
    lemma_components_get_wf(m, target);
    lemma_component_listeners_remove(components_get(m, target), observer, sources, source);
    lemma_empty_listeners(observer);
    let after = component_remove(m, target, observer, sources);
    assert forall|other: ComponentId| #[trigger] after.contains_key(other) implies after[other].wf()
        && !after[other].is_empty() by {
        if other != target {
            assert(m.contains_key(other));
        }
    }
    if component == target && m.contains_key(target) {
        let left = m[target].remove(observer, sources);
        if left.is_empty() {
            assert(left.map =~= Listeners::empty());
            assert(!left.entity_map.contains_key(source));
        }
    }
}

/// Registration for a list of components changes, for each of them, the
/// buckets that the scope designates, and no other bucket.
pub proof fn lemma_components_insert(
    m: Components,
    components: Seq<ComponentId>,
    observer: Entity,
    runner: ObserverRunner,
    sources: Seq<Entity>,
    component: ComponentId,
    source: Entity,
)
    requires
        components_wf(m),
    ensures
        components_wf(components_insert(m, components, observer, runner, sources)),
        components_get(components_insert(m, components, observer, runner, sources), component).map
            == if components.contains(component) && sources.len() == 0 {
            entries_insert(components_get(m, component).map, observer, runner)
        } else {
            components_get(m, component).map
        },
        targets_get(
            components_get(
                components_insert(m, components, observer, runner, sources),
                component,
            ).entity_map,
            source,
        ) == if components.contains(component) && sources.contains(source) {
            entries_insert(
                targets_get(components_get(m, component).entity_map, source),
                observer,
                runner,
            )
        } else {
            targets_get(components_get(m, component).entity_map, source)
        },
    decreases components.len(),
{
    if components.len() > 0 {
        let before = components_insert(m, components.drop_last(), observer, runner, sources);
        lemma_components_insert(
            m,
            components.drop_last(),
            observer,
            runner,
            sources,
            component,
            source,
        );
        lemma_component_insert_one(
            before,
            components.last(),
            observer,
            runner,
            sources,
            component,
            source,
        );
        lemma_contains_last(components, component);
        lemma_components_get_wf(m, component);
        lemma_insert_twice(components_get(m, component).map, observer, runner);
        lemma_targets_get_unique(components_get(m, component).entity_map, source);
        lemma_insert_twice(
            targets_get(components_get(m, component).entity_map, source),
            observer,
            runner,
        );
    }
}

/// Unregistration for a list of components changes, for each of them, the
/// buckets that the scope designates, and no other bucket.
pub proof fn lemma_components_remove(
    m: Components,
    components: Seq<ComponentId>,
    observer: Entity,
    sources: Seq<Entity>,
    component: ComponentId,
    source: Entity,
)
    requires
        components_wf(m),
    ensures
        components_wf(components_remove(m, components, observer, sources)),
        components_get(components_remove(m, components, observer, sources), component).map
            == if components.contains(component) && sources.len() == 0 {
            entries_remove(components_get(m, component).map, observer)
        } else {
            components_get(m, component).map
        },
        targets_get(
            components_get(
                components_remove(m, components, observer, sources),
                component,
            ).entity_map,
            source,
        ) == if components.contains(component) && sources.contains(source) {
            entries_remove(targets_get(components_get(m, component).entity_map, source), observer)
        } else {
            targets_get(components_get(m, component).entity_map, source)
        },
    decreases components.len(),
{
    if components.len() > 0 {
        let before = components_remove(m, components.drop_last(), observer, sources);
        lemma_components_remove(m, components.drop_last(), observer, sources, component, source);
        lemma_component_remove_one(
            before,
            components.last(),
            observer,
            sources,
            component,
            source,
        );
        lemma_contains_last(components, component);
        lemma_components_get_wf(m, component);
        lemma_remove_twice(components_get(m, component).map, observer);
        lemma_targets_get_unique(components_get(m, component).entity_map, source);
        lemma_remove_twice(targets_get(components_get(m, component).entity_map, source), observer);
    }
}

proof fn lemma_bucket_unique(listeners: SignalListeners, bucket: Bucket)
    requires
        listeners.wf(),
    ensures
        entries_unique(bucket_of(listeners, bucket)),
{
    match bucket {
        Bucket::Unscoped => {},
        Bucket::Row(source) => {
            lemma_targets_get_unique(listeners.entity_observers, source);
        },
        Bucket::Component(component) => {
            lemma_components_get_wf(listeners.component_observers, component);
        },
        Bucket::ComponentRow(component, source) => {
            lemma_components_get_wf(listeners.component_observers, component);
            lemma_targets_get_unique(
                components_get(listeners.component_observers, component).entity_map,
                source,
            );
        },
    }
}

/// Registration for one signal kind puts the listener into the buckets that
/// its scope designates and changes no other bucket.
pub proof fn lemma_register_bucket(
    listeners: SignalListeners,
    observer: Entity,
    runner: ObserverRunner,
    components: Seq<ComponentId>,
    sources: Seq<Entity>,
    bucket: Bucket,
)
    requires
        listeners.wf(),
    ensures
        listeners.register(observer, runner, components, sources).wf(),
        bucket_of(listeners.register(observer, runner, components, sources), bucket)
            == if designated(bucket, components, sources) {
            entries_insert(bucket_of(listeners, bucket), observer, runner)
        } else {
            bucket_of(listeners, bucket)
        },
{
    lemma_entries_insert(listeners.map, observer, runner);
    let any = Entity { id: 0 };
    lemma_targets_insert(listeners.entity_observers, sources, observer, runner, any);
    lemma_components_insert(
        listeners.component_observers,
        components,
        observer,
        runner,
        sources,
        any,
        any,
    );
    match bucket {
        Bucket::Unscoped => {},
        Bucket::Row(source) => {
            lemma_targets_insert(listeners.entity_observers, sources, observer, runner, source);
        },
        Bucket::Component(component) => {
            lemma_components_insert(
                listeners.component_observers,
                components,
                observer,
                runner,
                sources,
                component,
                any,
            );
        },
        Bucket::ComponentRow(component, source) => {
            lemma_components_insert(
                listeners.component_observers,
                components,
                observer,
                runner,
                sources,
                component,
                source,
            );
        },
    }
}

/// Unregistration for one signal kind takes the listener out of the buckets
/// that its scope designates and changes no other bucket.
pub proof fn lemma_unregister_bucket(
    listeners: SignalListeners,
    observer: Entity,
    components: Seq<ComponentId>,
    sources: Seq<Entity>,
    bucket: Bucket,
)
    requires
        listeners.wf(),
    ensures
        listeners.unregister(observer, components, sources).wf(),
        bucket_of(listeners.unregister(observer, components, sources), bucket) == if designated(
            bucket,
            components,
            sources,
        ) {
            entries_remove(bucket_of(listeners, bucket), observer)
        } else {
            bucket_of(listeners, bucket)
        },
{
    lemma_entries_remove(listeners.map, observer);
    let any = Entity { id: 0 };
    lemma_targets_remove(listeners.entity_observers, sources, observer, any);
    lemma_components_remove(listeners.component_observers, components, observer, sources, any, any);
    match bucket {
        Bucket::Unscoped => {},
        Bucket::Row(source) => {
            lemma_targets_remove(listeners.entity_observers, sources, observer, source);
        },
        Bucket::Component(component) => {
            lemma_components_remove(
                listeners.component_observers,
                components,
                observer,
                sources,
                component,
                any,
            );
        },
        Bucket::ComponentRow(component, source) => {
            lemma_components_remove(
                listeners.component_observers,
                components,
                observer,
                sources,
                component,
                source,
            );
        },
    }
}

proof fn lemma_slot_wf(cache: ObserverCache, trigger: ComponentId)
    requires
        cache.wf(),
    ensures
        cache.slot(trigger).wf(),
{
    if cache.cache.contains_key(trigger) {
    }
}

proof fn lemma_with_slot(
    cache: ObserverCache,
    target: ComponentId,
    listeners: SignalListeners,
    trigger: ComponentId,
)
    requires
        cache.wf(),
        listeners.wf(),
    ensures
        cache.with_slot(target, listeners).wf(),
        cache.with_slot(target, listeners).slot(trigger) == if trigger == target {
            listeners
        } else {
            cache.slot(trigger)
        },
{
}

/// Registration puts the listener into the designated buckets of the signal
/// kinds it listens for, and changes nothing else in the cache.
pub proof fn lemma_cache_register_bucket(
    cache: ObserverCache,
    observer: Entity,
    runner: ObserverRunner,
    triggers: Seq<ComponentId>,
    components: Seq<ComponentId>,
    sources: Seq<Entity>,
    trigger: ComponentId,
    bucket: Bucket,
)
    requires
        cache.wf(),
    ensures
        cache.register(observer, runner, triggers, components, sources).wf(),
        bucket_of(
            cache.register(observer, runner, triggers, components, sources).slot(trigger),
            bucket,
        ) == if triggers.contains(trigger) && designated(bucket, components, sources) {
            entries_insert(bucket_of(cache.slot(trigger), bucket), observer, runner)
        } else {
            bucket_of(cache.slot(trigger), bucket)
        },
    decreases triggers.len(),
{
    if triggers.len() > 0 {
        let before = cache.register(observer, runner, triggers.drop_last(), components, sources);
        lemma_cache_register_bucket(
            cache,
            observer,
            runner,
            triggers.drop_last(),
            components,
            sources,
            trigger,
            bucket,
        );
        lemma_slot_wf(before, triggers.last());
        lemma_register_bucket(
            before.slot(triggers.last()),
            observer,
            runner,
            components,
            sources,
            bucket,
        );
        lemma_with_slot(
            before,
            triggers.last(),
            before.slot(triggers.last()).register(observer, runner, components, sources),
            trigger,
        );
        lemma_contains_last(triggers, trigger);
        lemma_slot_wf(cache, trigger);
        lemma_bucket_unique(cache.slot(trigger), bucket);
        lemma_insert_twice(bucket_of(cache.slot(trigger), bucket), observer, runner);
    }
}

/// Unregistration takes the listener out of the designated buckets of the
/// signal kinds it listened for, and changes nothing else in the cache.
pub proof fn lemma_cache_unregister_bucket(
    cache: ObserverCache,
    observer: Entity,
    triggers: Seq<ComponentId>,
    components: Seq<ComponentId>,
    sources: Seq<Entity>,
    trigger: ComponentId,
    bucket: Bucket,
)
    requires
        cache.wf(),
    ensures
        cache.unregister(observer, triggers, components, sources).wf(),
        bucket_of(cache.unregister(observer, triggers, components, sources).slot(trigger), bucket)
            == if triggers.contains(trigger) && designated(bucket, components, sources) {
            entries_remove(bucket_of(cache.slot(trigger), bucket), observer)
        } else {
            bucket_of(cache.slot(trigger), bucket)
        },
    decreases triggers.len(),
{
    if triggers.len() > 0 {
        let before = cache.unregister(observer, triggers.drop_last(), components, sources);
        lemma_cache_unregister_bucket(
            cache,
            observer,
            triggers.drop_last(),
            components,
            sources,
            trigger,
            bucket,
        );
        lemma_slot_wf(before, triggers.last());
        lemma_unregister_bucket(
            before.slot(triggers.last()),
            observer,
            components,
            sources,
            bucket,
        );
        lemma_with_slot(
            before,
            triggers.last(),
            before.slot(triggers.last()).unregister(observer, components, sources),
            trigger,
        );
        lemma_contains_last(triggers, trigger);
        lemma_slot_wf(cache, trigger);
        lemma_bucket_unique(cache.slot(trigger), bucket);
        lemma_remove_twice(bucket_of(cache.slot(trigger), bucket), observer);
    }
}

/// Whether `observer` is in one of the two buckets of `component` that a
/// signal about `source` reaches.
pub open spec fn in_component_buckets(
    listeners: SignalListeners,
    source: Entity,
    component: ComponentId,
    observer: Entity,
) -> bool {
    entries_has(bucket_of(listeners, Bucket::Component(component)), observer) || (source
        != Entity::placeholder() && entries_has(
        bucket_of(listeners, Bucket::ComponentRow(component, source)),
        observer,
    ))
}

proof fn lemma_through_components(
    listeners: SignalListeners,
    source: Entity,
    touched: Seq<ComponentId>,
    observer: Entity,
)
    ensures
        entries_has(listeners.through_components(source, touched), observer) <==> exists|i: int|
            0 <= i < touched.len() && in_component_buckets(
                listeners,
                source,
                #[trigger] touched[i],
                observer,
            ),
    decreases touched.len(),
{
    if touched.len() > 0 {
        let rest = touched.drop_last();
        let last = components_get(listeners.component_observers, touched.last());
        lemma_through_components(listeners, source, rest, observer);
        lemma_has_concat(
            listeners.through_components(source, rest),
            last.bucket(source),
            observer,
        );
        lemma_has_concat(last.map, targets_get(last.entity_map, source), observer);
        if entries_has(listeners.through_components(source, touched), observer) {
            if entries_has(listeners.through_components(source, rest), observer) {
                let i = choose|i: int|
                    0 <= i < rest.len() && in_component_buckets(
                        listeners,
                        source,
                        #[trigger] rest[i],
                        observer,
                    );
                assert(touched[i] == rest[i]);
            } else {
                assert(in_component_buckets(
                    listeners,
                    source,
                    touched[touched.len() - 1],
                    observer,
                ));
            }
        }
        if exists|i: int|
            0 <= i < touched.len() && in_component_buckets(
                listeners,
                source,
                #[trigger] touched[i],
                observer,
            ) {
            let i = choose|i: int|
                0 <= i < touched.len() && in_component_buckets(
                    listeners,
                    source,
                    #[trigger] touched[i],
                    observer,
                );
            if i < rest.len() {
                assert(rest[i] == touched[i]);
            }
        }
    }
}

/// A listener runs for a signal exactly if it is in one of the buckets that
/// the signal reaches.
pub proof fn lemma_reached(
    listeners: SignalListeners,
    source: Entity,
    touched: Seq<ComponentId>,
    observer: Entity,
)
    ensures
        entries_has(listeners.reached(source, touched), observer) <==> {
            ||| entries_has(bucket_of(listeners, Bucket::Unscoped), observer)
            ||| source != Entity::placeholder() && entries_has(
                bucket_of(listeners, Bucket::Row(source)),
                observer,
            )
            ||| exists|i: int|
                0 <= i < touched.len() && in_component_buckets(
                    listeners,
                    source,
                    #[trigger] touched[i],
                    observer,
                )
        },
{
    lemma_through_components(listeners, source, touched, observer);
    lemma_has_concat(listeners.map, listeners.targeted(source), observer);
    lemma_has_concat(
        listeners.map + listeners.targeted(source),
        listeners.through_components(source, touched),
        observer,
    );
}

/// Whether one of the steps runs the listener `observer`.
pub open spec fn runs(steps: Seq<crate::cache_model::Invocation>, observer: Entity) -> bool {
    exists|i: int| 0 <= i < steps.len() && (#[trigger] steps[i]).trigger.observer == observer
}

/// The steps of a dispatch run exactly the listeners that the signal reaches.
pub proof fn lemma_runs(listeners: Listeners, trigger: ComponentId, source: Entity, observer: Entity)
    ensures
        runs(invocations(listeners, trigger, source), observer) <==> entries_has(
            listeners,
            observer,
        ),
{
    let steps = invocations(listeners, trigger, source);
    if runs(steps, observer) {
        let i = choose|i: int|
            0 <= i < steps.len() && (#[trigger] steps[i]).trigger.observer == observer;
        assert(listeners[i].0 == observer);
    }
    if entries_has(listeners, observer) {
        let i = choose|i: int| 0 <= i < listeners.len() && (#[trigger] listeners[i]).0 == observer;
        assert(steps[i].trigger.observer == observer);
    }
}

/// A listener that is registered nowhere is run by no dispatch.
pub proof fn lemma_unmentioned_never_runs(
    cache: ObserverCache,
    observer: Entity,
    trigger: ComponentId,
    source: Entity,
    touched: Seq<ComponentId>,
)
    requires
        !mentions(cache, observer),
    ensures
        !runs(cache.dispatch(trigger, source, touched), observer),
{
    let listeners = cache.slot(trigger);
    lemma_reached(listeners, source, touched, observer);
    lemma_runs(cache.reached(trigger, source, touched), trigger, source, observer);
    assert(!entries_has(bucket_of(listeners, Bucket::Unscoped), observer));
    assert(!entries_has(bucket_of(listeners, Bucket::Row(source)), observer));
    assert forall|i: int| 0 <= i < touched.len() implies !in_component_buckets(
        listeners,
        source,
        #[trigger] touched[i],
        observer,
    ) by {
        assert(!entries_has(bucket_of(listeners, Bucket::Component(touched[i])), observer));
        assert(!entries_has(
            bucket_of(listeners, Bucket::ComponentRow(touched[i], source)),
            observer,
        ));
    }
}

/// After a listener that was registered nowhere has been registered, each
/// bucket holds it exactly if the listener listens for the bucket's signal
/// kind and its scope designates the bucket.
proof fn lemma_fresh_bucket(
    cache: ObserverCache,
    observer: Entity,
    runner: ObserverRunner,
    triggers: Seq<ComponentId>,
    components: Seq<ComponentId>,
    sources: Seq<Entity>,
    trigger: ComponentId,
    bucket: Bucket,
)
    requires
        cache.wf(),
        !mentions(cache, observer),
    ensures
        entries_has(
            bucket_of(
                cache.register(observer, runner, triggers, components, sources).slot(trigger),
                bucket,
            ),
            observer,
        ) <==> triggers.contains(trigger) && designated(bucket, components, sources),
{
    lemma_cache_register_bucket(
        cache,
        observer,
        runner,
        triggers,
        components,
        sources,
        trigger,
        bucket,
    );
    lemma_slot_wf(cache, trigger);
    lemma_bucket_unique(cache.slot(trigger), bucket);
    lemma_entries_insert(bucket_of(cache.slot(trigger), bucket), observer, runner);
    assert(!entries_has(bucket_of(cache.slot(trigger), bucket), observer));
}

/// A listener that is newly registered is run by a dispatch exactly if it
/// listens for the kind of the signal and the signal is within its scope: the
/// target row is one of its rows, if it has any, and one of the touched
/// components is one of its components, if it has any. A signal without a
/// target row is within the scope of no listener that is scoped to rows.
pub proof fn lemma_registered_listener_runs_iff_in_scope(
    cache: ObserverCache,
    observer: Entity,
    runner: ObserverRunner,
    triggers: Seq<ComponentId>,
    components: Seq<ComponentId>,
    sources: Seq<Entity>,
    trigger: ComponentId,
    source: Entity,
    touched: Seq<ComponentId>,
)
    requires
        cache.wf(),
        !mentions(cache, observer),
    ensures
        runs(
            cache.register(observer, runner, triggers, components, sources).dispatch(
                trigger,
                source,
                touched,
            ),
            observer,
        ) <==> triggers.contains(trigger) && listens(components, sources, source, touched),
{
    let after = cache.register(observer, runner, triggers, components, sources);
    let listeners = after.slot(trigger);
    lemma_reached(listeners, source, touched, observer);
    lemma_runs(after.reached(trigger, source, touched), trigger, source, observer);
    lemma_fresh_bucket(
        cache,
        observer,
        runner,
        triggers,
        components,
        sources,
        trigger,
        Bucket::Unscoped,
    );
    lemma_fresh_bucket(
        cache,
        observer,
        runner,
        triggers,
        components,
        sources,
        trigger,
        Bucket::Row(source),
    );
    assert forall|i: int| 0 <= i < touched.len() implies (in_component_buckets(
        listeners,
        source,
        #[trigger] touched[i],
        observer,
    ) <==> triggers.contains(trigger) && components.contains(touched[i]) && (sources.len() == 0
        || (source != Entity::placeholder() && sources.contains(source)))) by {
        lemma_fresh_bucket(
            cache,
            observer,
            runner,
            triggers,
            components,
            sources,
            trigger,
            Bucket::Component(touched[i]),
        );
        lemma_fresh_bucket(
            cache,
            observer,
            runner,
            triggers,
            components,
            sources,
            trigger,
            Bucket::ComponentRow(touched[i], source),
        );
        if sources.contains(source) {
            assert(sources.len() > 0);
        }
    }
    if sources.contains(source) {
        assert(sources.len() > 0);
    }
    let listed = triggers.contains(trigger) && listens(components, sources, source, touched);
    if runs(after.dispatch(trigger, source, touched), observer) {
        if exists|i: int|
            0 <= i < touched.len() && in_component_buckets(
                listeners,
                source,
                #[trigger] touched[i],
                observer,
            ) {
            let i = choose|i: int|
                0 <= i < touched.len() && in_component_buckets(
                    listeners,
                    source,
                    #[trigger] touched[i],
                    observer,
                );
            assert(components.contains(touched[i]));
        }
        assert(listed);
    }
    if listed {
        if components.len() > 0 {
            let i = choose|i: int|
                0 <= i < touched.len() && components.contains(#[trigger] touched[i]);
            assert(in_component_buckets(listeners, source, touched[i], observer));
        } else {
            assert(forall|c: ComponentId| !components.contains(c));
        }
        assert(runs(after.dispatch(trigger, source, touched), observer));
    }
}

/// A listener scoped to rows only is never run for a signal about another
/// row, nor for one without a target row, and is run for every signal of a
/// kind it listens for whose target is one of its rows.
pub proof fn lemma_row_scoped_listener(
    cache: ObserverCache,
    observer: Entity,
    runner: ObserverRunner,
    triggers: Seq<ComponentId>,
    sources: Seq<Entity>,
    trigger: ComponentId,
    source: Entity,
    touched: Seq<ComponentId>,
)
    requires
        cache.wf(),
        !mentions(cache, observer),
        sources.len() > 0,
    ensures
        runs(
            cache.register(observer, runner, triggers, Seq::empty(), sources).dispatch(
                trigger,
                source,
                touched,
            ),
            observer,
        ) <==> triggers.contains(trigger) && source != Entity::placeholder() && sources.contains(
            source,
        ),
{
    lemma_registered_listener_runs_iff_in_scope(
        cache,
        observer,
        runner,
        triggers,
        Seq::empty(),
        sources,
        trigger,
        source,
        touched,
    );
}

/// A listener scoped to components is run only for signals that touched one
/// of its components.
pub proof fn lemma_component_scoped_listener(
    cache: ObserverCache,
    observer: Entity,
    runner: ObserverRunner,
    triggers: Seq<ComponentId>,
    components: Seq<ComponentId>,
    sources: Seq<Entity>,
    trigger: ComponentId,
    source: Entity,
    touched: Seq<ComponentId>,
)
    requires
        cache.wf(),
        !mentions(cache, observer),
        components.len() > 0,
        runs(
            cache.register(observer, runner, triggers, components, sources).dispatch(
                trigger,
                source,
                touched,
            ),
            observer,
        ),
    ensures
        exists|i: int| 0 <= i < touched.len() && components.contains(#[trigger] touched[i]),
{
    lemma_registered_listener_runs_iff_in_scope(
        cache,
        observer,
        runner,
        triggers,
        components,
        sources,
        trigger,
        source,
        touched,
    );
}

/// Once a listener has been unregistered with the descriptor it was
/// registered with, the cache holds no trace of it, so that no dispatch runs
/// it.
pub proof fn lemma_unregistered_listener_is_forgotten(
    cache: ObserverCache,
    observer: Entity,
    runner: ObserverRunner,
    triggers: Seq<ComponentId>,
    components: Seq<ComponentId>,
    sources: Seq<Entity>,
)
    requires
        cache.wf(),
        !mentions(cache, observer),
    ensures
        cache.register(observer, runner, triggers, components, sources).unregister(
            observer,
            triggers,
            components,
            sources,
        ).wf(),
        !mentions(
            cache.register(observer, runner, triggers, components, sources).unregister(
                observer,
                triggers,
                components,
                sources,
            ),
            observer,
        ),
{
    let registered = cache.register(observer, runner, triggers, components, sources);
    let after = registered.unregister(observer, triggers, components, sources);
    // Both steps keep the cache well formed; any place will do to see it.
    lemma_cache_register_bucket(
        cache,
        observer,
        runner,
        triggers,
        components,
        sources,
        observer,
        Bucket::Unscoped,
    );
    lemma_cache_unregister_bucket(
        registered,
        observer,
        triggers,
        components,
        sources,
        observer,
        Bucket::Unscoped,
    );
    assert forall|trigger: ComponentId, bucket: Bucket| !#[trigger] entries_has(
        bucket_of(after.slot(trigger), bucket),
        observer,
    ) by {
        lemma_cache_register_bucket(
            cache,
            observer,
            runner,
            triggers,
            components,
            sources,
            trigger,
            bucket,
        );
        lemma_cache_unregister_bucket(
            registered,
            observer,
            triggers,
            components,
            sources,
            trigger,
            bucket,
        );
        lemma_slot_wf(cache, trigger);
        lemma_bucket_unique(cache.slot(trigger), bucket);
        lemma_entries_insert(bucket_of(cache.slot(trigger), bucket), observer, runner);
        lemma_slot_wf(registered, trigger);
        lemma_bucket_unique(registered.slot(trigger), bucket);
        lemma_entries_remove(bucket_of(registered.slot(trigger), bucket), observer);
        assert(!entries_has(bucket_of(cache.slot(trigger), bucket), observer));
    }
}

/// Registering or unregistering another listener brings no trace of a
/// listener that the cache does not hold.
pub proof fn lemma_others_leave_no_trace(
    cache: ObserverCache,
    observer: Entity,
    other: Entity,
    runner: ObserverRunner,
    triggers: Seq<ComponentId>,
    components: Seq<ComponentId>,
    sources: Seq<Entity>,
)
    requires
        cache.wf(),
        !mentions(cache, observer),
        other != observer,
    ensures
        !mentions(cache.register(other, runner, triggers, components, sources), observer),
        !mentions(cache.unregister(other, triggers, components, sources), observer),
{
    let registered = cache.register(other, runner, triggers, components, sources);
    let unregistered = cache.unregister(other, triggers, components, sources);
    assert forall|trigger: ComponentId, bucket: Bucket| !#[trigger] entries_has(
        bucket_of(registered.slot(trigger), bucket),
        observer,
    ) by {
        lemma_cache_register_bucket(
            cache,
            other,
            runner,
            triggers,
            components,
            sources,
            trigger,
            bucket,
        );
        lemma_slot_wf(cache, trigger);
        lemma_bucket_unique(cache.slot(trigger), bucket);
        lemma_entries_insert(bucket_of(cache.slot(trigger), bucket), other, runner);
        assert(!entries_has(bucket_of(cache.slot(trigger), bucket), observer));
    }
    assert forall|trigger: ComponentId, bucket: Bucket| !#[trigger] entries_has(
        bucket_of(unregistered.slot(trigger), bucket),
        observer,
    ) by {
        lemma_cache_unregister_bucket(
            cache,
            other,
            triggers,
            components,
            sources,
            trigger,
            bucket,
        );
        lemma_slot_wf(cache, trigger);
        lemma_bucket_unique(cache.slot(trigger), bucket);
        lemma_entries_remove(bucket_of(cache.slot(trigger), bucket), other);
        assert(!entries_has(bucket_of(cache.slot(trigger), bucket), observer));
    }
}

/// The cache after each of `listeners` was registered, in their order, for
/// the one signal kind `trigger` without any scope.
pub open spec fn register_all(cache: ObserverCache, trigger: ComponentId, listeners: Listeners) -> ObserverCache
    decreases listeners.len(),
{
    if listeners.len() == 0 {
        cache
    } else {
        register_all(cache, trigger, listeners.drop_last()).register(
            listeners.last().0,
            listeners.last().1,
            seq![trigger],
            Seq::empty(),
            Seq::empty(),
        )
    }
}

proof fn lemma_register_all(cache: ObserverCache, trigger: ComponentId, listeners: Listeners)
    requires
        entries_unique(listeners),
        forall|i: int|
            0 <= i < listeners.len() ==> !entries_has(
                cache.slot(trigger).map,
                (#[trigger] listeners[i]).0,
            ),
    ensures
        register_all(cache, trigger, listeners).slot(trigger) == (SignalListeners {
            map: cache.slot(trigger).map + listeners,
            ..cache.slot(trigger)
        }),
    decreases listeners.len(),
{
    if listeners.len() == 0 {
        assert(cache.slot(trigger).map + listeners =~= cache.slot(trigger).map);
    } else {
        let rest = listeners.drop_last();
        let last = listeners.last();
        let before = register_all(cache, trigger, rest);
        assert forall|i: int| 0 <= i < rest.len() implies !entries_has(
            cache.slot(trigger).map,
            (#[trigger] rest[i]).0,
        ) by {
            assert(rest[i] == listeners[i]);
        }
        assert(entries_unique(rest)) by {
            assert forall|i: int, j: int| 0 <= i < j < rest.len() implies (#[trigger] rest[i]).0 != (
            #[trigger] rest[j]).0 by {
                assert(rest[i] == listeners[i] && rest[j] == listeners[j]);
            }
        }
        lemma_register_all(cache, trigger, rest);
        let triggers = seq![trigger];
        assert(triggers.drop_last() =~= Seq::<ComponentId>::empty());
        assert(triggers.last() == trigger);
        assert(before.register(last.0, last.1, triggers.drop_last(), Seq::empty(), Seq::empty())
            == before);
        let map = cache.slot(trigger).map + rest;
        assert(!entries_has(map, last.0)) by {
            lemma_has_concat(cache.slot(trigger).map, rest, last.0);
            assert(listeners[listeners.len() - 1] == last);
            if entries_has(rest, last.0) {
                let i = choose|i: int| 0 <= i < rest.len() && (#[trigger] rest[i]).0 == last.0;
                assert(rest[i] == listeners[i]);
                assert(listeners[i].0 != listeners[listeners.len() - 1].0);
            }
        }
        assert(map.push(last) =~= cache.slot(trigger).map + listeners);
    }
}

/// Listeners registered one after the other for the same signal kind,
/// without any scope, are run by every dispatch of that kind, each one once,
/// in the order in which they were registered: after the listeners without
/// scope that were there before, and before all listeners with a scope.
pub proof fn lemma_unscoped_listeners_run_in_registration_order(
    cache: ObserverCache,
    trigger: ComponentId,
    listeners: Listeners,
    source: Entity,
    touched: Seq<ComponentId>,
)
    requires
        entries_unique(listeners),
        forall|i: int|
            0 <= i < listeners.len() ==> !entries_has(
                cache.slot(trigger).map,
                (#[trigger] listeners[i]).0,
            ),
    ensures
        register_all(cache, trigger, listeners).dispatch(trigger, source, touched) == invocations(
            cache.slot(trigger).map,
            trigger,
            source,
        ) + invocations(listeners, trigger, source) + invocations(
            cache.slot(trigger).targeted(source) + cache.slot(trigger).through_components(
                source,
                touched,
            ),
            trigger,
            source,
        ),
        register_all(ObserverCache::empty(), trigger, listeners).dispatch(trigger, source, touched)
            == invocations(listeners, trigger, source),
{
    lemma_register_all(cache, trigger, listeners);
    let old_slot = cache.slot(trigger);
    let new_slot = register_all(cache, trigger, listeners).slot(trigger);
    assert(new_slot.through_components(source, touched) == old_slot.through_components(
        source,
        touched,
    )) by {
        lemma_same_components(new_slot, old_slot, source, touched);
    }
    let tail = old_slot.targeted(source) + old_slot.through_components(source, touched);
    assert(new_slot.reached(source, touched) =~= old_slot.map + listeners + tail);
    crate::cache_model::lemma_invocations_add(old_slot.map + listeners, tail, trigger, source);
    crate::cache_model::lemma_invocations_add(old_slot.map, listeners, trigger, source);
    if cache == ObserverCache::empty() {
        lemma_nothing_registered(source, touched);
        assert(old_slot.map + listeners + tail =~= listeners);
        assert(invocations(old_slot.map, trigger, source) + invocations(
            listeners,
            trigger,
            source,
        ) + invocations(tail, trigger, source) =~= invocations(listeners, trigger, source));
    } else {
        lemma_register_all(ObserverCache::empty(), trigger, listeners);
        let empty_slot = ObserverCache::empty().slot(trigger);
        let filled = register_all(ObserverCache::empty(), trigger, listeners).slot(trigger);
        lemma_same_components(filled, empty_slot, source, touched);
        lemma_nothing_registered(source, touched);
        assert(filled.reached(source, touched) =~= listeners);
    }
}

proof fn lemma_same_components(
    a: SignalListeners,
    b: SignalListeners,
    source: Entity,
    touched: Seq<ComponentId>,
)
    requires
        a.component_observers == b.component_observers,
    ensures
        a.through_components(source, touched) == b.through_components(source, touched),
    decreases touched.len(),
{
    if touched.len() > 0 {
        lemma_same_components(a, b, source, touched.drop_last());
    }
}

proof fn lemma_nothing_registered(source: Entity, touched: Seq<ComponentId>)
    ensures
        SignalListeners::empty().through_components(source, touched) == Listeners::empty(),
        SignalListeners::empty().targeted(source) == Listeners::empty(),
    decreases touched.len(),
{
    if touched.len() > 0 {
        lemma_nothing_registered(source, touched.drop_last());
    }
    assert(SignalListeners::empty().through_components(source, touched) =~= Listeners::empty());
}

} // verus!
