//! The query terms and the observer cache of an entity-component store.
//!
//! A store holds rows; each row has a set of components that can change while
//! the store lives. Two things are built on that:
//!
//! - Queries. A query is made of terms, each of which names a component, says
//!   whether the query reads or writes it and whether a row has to have it
//!   (`term`, `group`, `query`). A builder puts the terms together, checks
//!   that they are complete and that their access does not conflict
//!   (`access`), and freezes them (`builder`).
//! - Listeners. A listener is registered for kinds of signals, and possibly
//!   for certain components and certain rows. The cache keeps the listeners
//!   so that the ones a signal reaches are found quickly and in a fixed order
//!   (`observer`, with its mathematical model in `cache_model` and what holds
//!   of it in `cache_laws`).
//!
//! The store itself (`world`, modelled in `world_model`) is kept small: rows
//! of integer-valued components, resources, events, the listeners and a
//! queue of structural changes. It does not run listeners. A structural
//! operation returns the dispatches it caused; whoever drives the store runs
//! their steps, handing each listener a view of the store that cannot change
//! its structure (`deferred`), and then applies the changes that the
//! listeners queued.

pub mod entity;
pub mod component;
pub mod table;
pub mod archetype;
pub mod listeners;
pub mod cache_model;
pub mod cache_laws;
pub mod keyed;
pub mod observer;
pub mod term;
pub mod access;
pub mod world_model;
pub mod world;
pub mod group;
pub mod query;
pub mod builder;
pub mod deferred;
pub mod observer_handle;
pub mod observer_builder;
