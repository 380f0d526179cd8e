//! Marker traits for spawn-safety across targets.

use vstd::prelude::*;

verus! {

/// A marker for values that may cross a task boundary.
pub trait WasmCompatSend: Send {

}

impl<T: Send> WasmCompatSend for T {

}

/// A marker for values that may be shared across a task boundary.
pub trait WasmCompatSync: Sync {

}

impl<T: Sync> WasmCompatSync for T {

}

} // verus!
