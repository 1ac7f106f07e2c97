//! Component kinds and signal kinds that are known by a type.

use vstd::prelude::*;

verus! {

/// A kind of component that is known by its type. The store registers the
/// kind under the key that the type gives.
pub trait Component {
    /// The key of the kind; the same for every call.
    fn type_key() -> u64;
}

/// A kind of signal that is known by its type.
pub trait Trigger: Component {

}

} // verus!
