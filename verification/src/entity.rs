//! Identifiers of rows, components and signal kinds.

use vstd::prelude::*;

verus! {

/// Identifier of one row of the store.
///
/// Components and signal kinds are named by identifiers of the same type, so
/// that a row can itself stand for a component kind.
#[derive(Clone, Copy, Debug, PartialEq, Eq, Structural, Hash)]
pub struct Entity {
    pub id: u64,
}

/// Identifier of a component kind or of a signal kind.
pub type ComponentId = Entity;

/// Number of the signal sent when a component is attached to a row that lacked it.
pub const ON_ADD_ID: u64 = 0;

/// Number of the signal sent whenever a component is attached to a row.
pub const ON_INSERT_ID: u64 = 1;

/// Number of the signal sent when a component is taken from a row.
pub const ON_REMOVE_ID: u64 = 2;

/// Identifiers below this number are reserved for the built-in signals.
pub const RESERVED_IDS: u64 = 3;

/// Number of the identifier that stands where a signal has no target row.
pub const PLACEHOLDER_ID: u64 = 0xffff_ffff_ffff_ffff;

pub open spec fn on_add_spec() -> ComponentId {
    Entity { id: ON_ADD_ID }
}

pub open spec fn on_insert_spec() -> ComponentId {
    Entity { id: ON_INSERT_ID }
}

pub open spec fn on_remove_spec() -> ComponentId {
    Entity { id: ON_REMOVE_ID }
}

/// Signal sent when a component is attached to a row that lacked it.
#[verifier::when_used_as_spec(on_add_spec)]
pub fn on_add() -> (e: ComponentId)
    ensures
        e == on_add_spec(),
{
    Entity { id: ON_ADD_ID }
}

/// Signal sent whenever a component is attached to a row.
#[verifier::when_used_as_spec(on_insert_spec)]
pub fn on_insert() -> (e: ComponentId)
    ensures
        e == on_insert_spec(),
{
    Entity { id: ON_INSERT_ID }
}

/// Signal sent when a component is taken from a row.
#[verifier::when_used_as_spec(on_remove_spec)]
pub fn on_remove() -> (e: ComponentId)
    ensures
        e == on_remove_spec(),
{
    Entity { id: ON_REMOVE_ID }
}

impl Entity {
    pub open spec fn placeholder_spec() -> Entity {
        Entity { id: PLACEHOLDER_ID }
    }

    /// Stands where a signal has no target row.
    #[verifier::when_used_as_spec(placeholder_spec)]
    pub fn placeholder() -> (e: Entity)
        ensures
            e == Entity::placeholder_spec(),
    {
        Entity { id: PLACEHOLDER_ID }
    }

    /// The identifier with the given number.
    pub fn from_raw(id: u64) -> (e: Entity)
        ensures
            e.id == id,
    {
        Entity { id }
    }

    /// The identifier written as one integer, the key under which maps hold it.
    pub fn to_bits(self) -> (bits: u64)
        ensures
            bits == self.id,
    {
        self.id
    }

    /// The identifier whose integer form is `bits`.
    pub fn from_bits(bits: u64) -> (e: Entity)
        ensures
            e.to_bits_spec() == bits,
    {
        Entity { id: bits }
    }

    pub open spec fn to_bits_spec(self) -> u64 {
        self.id
    }

    /// Whether a signal that names `self` as its target has a target at all.
    pub fn is_placeholder(self) -> (b: bool)
        ensures
            b == (self == Entity::placeholder()),
    {
        self.id == PLACEHOLDER_ID
    }
}

} // verus!
