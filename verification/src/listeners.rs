//! The listeners of one bucket of the observer cache.

use vstd::prelude::*;
use crate::entity::Entity;
use crate::table::Table;

verus! {

/// Handle of the routine that runs a listener. The cache only stores it; the
/// driver that performs a dispatch finds the routine under this handle.
#[derive(Clone, Copy, Debug, PartialEq, Eq, Structural, Hash)]
pub struct ObserverRunner {
    pub index: u64,
}

/// The listeners of a bucket as pairs of listener row and runner, in the
/// order in which the rows were registered.
pub type Listeners = Seq<(Entity, ObserverRunner)>;

/// The listeners of one bucket: a map from listener row to runner that hands
/// its entries out in registration order.
pub type ObserverMap = Table<ObserverRunner>;

} // verus!
