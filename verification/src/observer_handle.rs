//! What a listener is handed when it runs: the payload of the signal and what
//! is known of the signal.

use vstd::prelude::*;
use crate::cache_model::ObserverTrigger;
use crate::entity::{ComponentId, Entity};

verus! {

/// What a listener is handed when it runs.
pub struct Observer<'w, T> {
    pub data: &'w mut T,
    pub trigger: ObserverTrigger,
}

impl<'w, T> Observer<'w, T> {
    /// The handle for a listener that runs because of `trigger`, with the
    /// payload `data`.
    pub fn new(data: &'w mut T, trigger: ObserverTrigger) -> (observer: Self)
        ensures
            observer.trigger == trigger,
            *observer.data == *old(data),
            *final(observer.data) == *final(data),
    {
        Observer { data, trigger }
    }

    /// The kind of the signal.
    pub fn trigger(&self) -> (trigger: ComponentId)
        ensures
            trigger == self.trigger.trigger,
    {
        self.trigger.trigger
    }

    /// The payload of the signal.
    pub fn data(&self) -> (data: &T)
        ensures
            *data == *old(self.data),
    {
        self.data
    }

    /// The payload of the signal, to be changed in place.
    pub fn data_mut(&mut self) -> (data: &mut T)
        ensures
            *data == *old(self).data,
            *final(self).data == *final(data),
            final(self).trigger == old(self).trigger,
            *final(final(self).data) == *final(old(self).data),
    {
        self.data
    }

    /// The row that the signal is about, which may be the placeholder.
    pub fn source(&self) -> (source: Entity)
        ensures
            source == self.trigger.source,
    {
        self.trigger.source
    }

    /// The row of the listener itself.
    pub fn observer(&self) -> (observer: Entity)
        ensures
            observer == self.trigger.observer,
    {
        self.trigger.observer
    }
}

} // verus!
